use agent_memory_rs::models::{BertShape, ModelType, QuantizationType};

#[test]
fn model_repositories_and_dimensions() {
    assert_eq!(ModelType::MiniLM.repo_id(), "sentence-transformers/all-MiniLM-L6-v2");
    assert_eq!(ModelType::Nomic.repo_id(), "nomic-ai/nomic-embed-text-v1");
    assert_eq!(ModelType::BgeSmall.repo_id(), "BAAI/bge-small-en-v1.5");
    assert_eq!(ModelType::MiniLM.dimensions(), 384);
    assert_eq!(ModelType::Nomic.dimensions(), 768);
    assert_eq!(ModelType::BgeSmall.dimensions(), 384);
    assert_ne!(QuantizationType::Unquantized, QuantizationType::Int8);
}

#[test]
fn network_shapes() {
    assert_eq!(
        ModelType::MiniLM.bert_shape(),
        BertShape {
            vocab_size: 30522,
            hidden_size: 384,
            num_hidden_layers: 6,
            num_attention_heads: 12,
            intermediate_size: 1536,
            max_position_embeddings: 512,
            type_vocab_size: 2,
            pad_token_id: 0,
        }
    );
    assert_eq!(ModelType::Nomic.bert_shape().vocab_size, 30528);
    assert_eq!(ModelType::Nomic.bert_shape().max_position_embeddings, 8192);
    assert_eq!(ModelType::BgeSmall.bert_shape().num_hidden_layers, 12);
    for m in [ModelType::MiniLM, ModelType::Nomic, ModelType::BgeSmall] {
        assert_eq!(m.bert_shape().hidden_size, m.dimensions());
        assert_eq!(m.bert_shape().hidden_size % m.bert_shape().num_attention_heads, 0);
    }
}
