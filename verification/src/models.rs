//! Embedding model descriptions.
use vstd::prelude::*;

verus! {

/// The sentence-embedding models the system can load.
#[derive(Clone, Copy, Debug, PartialEq, Eq, Structural)]
pub enum ModelType {
    MiniLM,
    Nomic,
    BgeSmall,
}

/// Weight quantization applied to a loaded model.
#[derive(Clone, Copy, Debug, PartialEq, Eq, Structural)]
pub enum QuantizationType {
    Unquantized,
    Int8,
}

/// Width of the embedding vectors produced by each model.
pub open spec fn spec_dimensions(m: ModelType) -> nat {
    match m {
        ModelType::MiniLM => 384,
        ModelType::Nomic => 768,
        ModelType::BgeSmall => 384,
    }
}

impl ModelType {
    /// Hugging Face repository that hosts the model weights and tokenizer.
    pub fn repo_id(&self) -> (r: &'static str)
        ensures
            *self == ModelType::MiniLM ==> r@ == "sentence-transformers/all-MiniLM-L6-v2"@,
            *self == ModelType::Nomic ==> r@ == "nomic-ai/nomic-embed-text-v1"@,
            *self == ModelType::BgeSmall ==> r@ == "BAAI/bge-small-en-v1.5"@,
    {
        match self {
            ModelType::MiniLM => "sentence-transformers/all-MiniLM-L6-v2",
            ModelType::Nomic => "nomic-ai/nomic-embed-text-v1",
            ModelType::BgeSmall => "BAAI/bge-small-en-v1.5",
        }
    }

    /// Number of components in one embedding vector.
    pub fn dimensions(&self) -> (d: usize)
        ensures
            d == spec_dimensions(*self),
    {
        match self {
            ModelType::MiniLM => 384,
            ModelType::Nomic => 768,
            ModelType::BgeSmall => 384,
        }
    }
}

/// The integer shape of the BERT network behind a model (the float
/// settings, such as the dropout, are chosen beside it).
#[derive(Clone, Copy, Debug, PartialEq, Eq, Structural)]
pub struct BertShape {
    pub vocab_size: usize,
    pub hidden_size: usize,
    pub num_hidden_layers: usize,
    pub num_attention_heads: usize,
    pub intermediate_size: usize,
    pub max_position_embeddings: usize,
    pub type_vocab_size: usize,
    pub pad_token_id: usize,
}

/// The network shape of each model.
pub open spec fn spec_bert_shape(m: ModelType) -> BertShape {
    match m {
        ModelType::MiniLM => BertShape {
            vocab_size: 30522,
            hidden_size: 384,
            num_hidden_layers: 6,
            num_attention_heads: 12,
            intermediate_size: 1536,
            max_position_embeddings: 512,
            type_vocab_size: 2,
            pad_token_id: 0,
        },
        ModelType::Nomic => BertShape {
            vocab_size: 30528,
            hidden_size: 768,
            num_hidden_layers: 12,
            num_attention_heads: 12,
            intermediate_size: 3072,
            max_position_embeddings: 8192,
            type_vocab_size: 2,
            pad_token_id: 0,
        },
        ModelType::BgeSmall => BertShape {
            vocab_size: 30522,
            hidden_size: 384,
            num_hidden_layers: 12,
            num_attention_heads: 12,
            intermediate_size: 1536,
            max_position_embeddings: 512,
            type_vocab_size: 2,
            pad_token_id: 0,
        },
    }
}

impl ModelType {
    /// The network shape the weights of this model are loaded into.
    pub fn bert_shape(&self) -> (s: BertShape)
        ensures
            s == spec_bert_shape(*self),
    {
        match self {
            ModelType::MiniLM => BertShape {
                vocab_size: 30522,
                hidden_size: 384,
                num_hidden_layers: 6,
                num_attention_heads: 12,
                intermediate_size: 1536,
                max_position_embeddings: 512,
                type_vocab_size: 2,
                pad_token_id: 0,
            },
            ModelType::Nomic => BertShape {
                vocab_size: 30528,
                hidden_size: 768,
                num_hidden_layers: 12,
                num_attention_heads: 12,
                intermediate_size: 3072,
                max_position_embeddings: 8192,
                type_vocab_size: 2,
                pad_token_id: 0,
            },
            ModelType::BgeSmall => BertShape {
                vocab_size: 30522,
                hidden_size: 384,
                num_hidden_layers: 12,
                num_attention_heads: 12,
                intermediate_size: 1536,
                max_position_embeddings: 512,
                type_vocab_size: 2,
                pad_token_id: 0,
            },
        }
    }
}

/// Each model's network produces vectors of the model's declared width, and
/// its hidden width splits evenly over its attention heads.
pub proof fn lemma_shape_matches_dimensions(m: ModelType)
    ensures
        spec_bert_shape(m).hidden_size == spec_dimensions(m),
        spec_bert_shape(m).hidden_size % spec_bert_shape(m).num_attention_heads == 0,
{
}

} // verus!
