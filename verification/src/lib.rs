//! In-memory evaluator for `.tlisp` documents.
//!
//! A source is a run of s-expressions. [`sexpr`] reads it, and each kind of
//! form has its own evaluator:
//!
//! - [`eval`] turns a `deflava-architecture` form into a typed
//!   [`arch::Architecture`]; [`schema`] validates the inputs first.
//! - [`interface`] reads `deflava-interface` forms, and [`import`] reads
//!   `deflava-import` forms.
//! - [`dashboard`] turns a `deflava-dashboard` form into a typed
//!   [`board::Dashboard`], and [`render`] turns that into Grafana JSON.
//!
//! [`fit`] says which values fit which types and [`language`] which language a
//! query is in. [`printing`] and [`defaults`] state how sources and inputs can
//! be rewritten without a change in what they give. The modules whose names end in
//! `_laws` say of each kind of form what its parts mean: what it is without any,
//! and what one more does to it.
//!
//! Every executable function is stated over a mathematical model of its
//! arguments and result: texts are sequences of characters, ordered maps are
//! sequences of entries, forms and values are trees.
use vstd::prelude::*;

pub mod arch;
pub mod arch_laws;
pub mod board;
pub mod dashboard;
pub mod dashboard_laws;
pub mod datum;
pub mod defaults;
pub mod entries;
pub mod error;
pub mod eval;
pub mod fit;
pub mod forms;
pub mod import;
pub mod import_laws;
pub mod interface;
pub mod interface_laws;
pub mod json;
pub mod json_laws;
pub mod language;
pub mod number;
pub mod printing;
pub mod render;
pub mod resource_laws;
pub mod schema;
pub mod sexpr;
pub mod sortedmap;
pub mod template;
pub mod text;
pub mod textmap;
pub mod types;
pub mod value_laws;
pub mod view_laws;

pub use crate::error::EvalError;
pub use crate::eval::{eval_architecture, InputBindings};
pub use crate::import::{imports_in_source, Import, ImportParseError};
pub use crate::interface::{interface_from_form, interfaces_in_source, InterfaceParseError};
pub use crate::schema::eval_architecture_with_schema;
pub use crate::sexpr::{parse, parse_all, Atom, ParseError, Sx};

verus! {

} // verus!
