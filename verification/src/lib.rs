pub mod text;
pub mod token;
pub mod variable_types;
pub mod three_address_code_gen;
pub mod enbeded_funcs;
pub mod code_generator;
pub mod parser;
pub mod semantic_analyzer;
pub mod error_positions;
pub mod block_labels;
pub mod expr_values;
pub mod machine;
