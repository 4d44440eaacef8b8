//! A small evaluator for sums of non-negative integers written as text.
//!
//! A text is first split into lexical items ([`lexer`]) and the items are
//! then evaluated by a right-recursive grammar ([`expressao`]); [`avaliar`]
//! does both. Every executable function is specified against a mathematical
//! model, of the text as a `Seq<char>` and of the items as a
//! `Seq<ItemLexico>`, and the modules whose names begin with `lemas_` prove
//! what follows from those models for whole classes of texts.

pub mod avaliacao;
pub mod cursor;
pub mod erro;
pub mod item;
pub mod lemas_avaliacao;
pub mod lemas_lexico;
pub mod lemas_sintatico;
pub mod lexico;
pub mod sintatico;

pub use avaliacao::avaliar;
pub use cursor::Cursor;
pub use erro::{ErroAvaliacao, ErroLexico, ErroSintatico};
pub use item::ItemLexico;
pub use lexico::{lexer, obter_numero};
pub use sintatico::{combinar, expressao, termo};
