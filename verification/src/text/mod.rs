pub mod bert_align;
pub mod chars;
pub mod normalizer;
pub mod segmentation;
pub mod tokenizer;
pub mod g2p;
pub mod symbols;
