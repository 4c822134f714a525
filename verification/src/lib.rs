//! A compiler from PEG grammars to specialised matchers, with the flat
//! parse tree that the matchers fill and the diagnostics they report.
//!
//! A grammar is lowered by the optimizer into a reduced expression tree.
//! Every node of that tree has two matching procedures, a quick one that
//! only says whether the node matched and a full one that explains a
//! failure. The crate both emits these procedures as source text and runs
//! them directly on an input.
//!
//! The modules, from the grammar to the parse tree:
//!
//! - `raw`, `optimizer`, `rules`: from the expressions and rules that
//!   `pest_meta` has parsed to the reduced tree and the rule table;
//! - `expr`, `condition`, `tree_inspection`, `ids`: the reduced tree, the
//!   byte tests, walks over the tree, and the names of its nodes;
//! - `semantics`, `diagnosis`, `forest`, `laws`: what matching means,
//!   which error a failure gives, and what holds of every match;
//! - `matcher` and the `pattern_*` modules: the two procedures of every
//!   kind of node and rule;
//! - `generator`, `rust_generator`, `expr_codegen`, `multi_replace`,
//!   `generate`, `text`: the same procedures as source text;
//! - `ident`, `pairs`, `error`: the parse tree and the errors.
pub mod condition;
pub mod diagnosis;
pub mod error;
pub mod expr;
pub mod expr_codegen;
pub mod forest;
pub mod generate;
pub mod generator;
pub mod grammar;
pub mod ident;
pub mod ids;
pub mod laws;
pub mod matcher;
pub mod multi_replace;
pub mod optimizer;
pub mod pairs;
pub mod pattern_expr_character;
pub mod pattern_expr_choice;
pub mod pattern_expr_insens;
pub mod pattern_expr_neg;
pub mod pattern_expr_opt;
pub mod pattern_expr_rep;
pub mod pattern_expr_rep_character;
pub mod pattern_expr_seq;
pub mod pattern_expr_str;
pub mod pattern_ident;
pub mod pattern_outer;
pub mod pattern_rule;
pub mod pattern_rule_method;
pub mod pattern_rule_silent;
pub mod raw;
pub mod rules;
pub mod rust_generator;
pub mod semantics;
pub mod text;
pub mod tree_inspection;

pub use error::{Error, ErrorKind};
pub use expr::FPestExpr;
pub use generator::Generator;
pub use grammar::{Grammar, GrammarRule};
pub use ident::{IdentIter, IdentList, IdentRef};
pub use ids::IdRegistry;
pub use pairs::{Pair2, Pairs2};
pub use pattern_outer::{Ident, Rule};
