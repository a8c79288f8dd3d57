//! A template compiler: a tag-based markup language is parsed, its components
//! and layouts are expanded, and the result is planned into a short sequence of
//! write operations that renders HTML against a data context.
//!
//! The language, by example:
//!
//! - `div class="a" { ... }` is an element; `input type="text";` is self-closing.
//!   An attribute is `key`, `key="literal"` or `key=@path;`; a key may be quoted.
//! - `"text"` is literal text and `@path;` the text at a path of the data
//!   context (`@point.x;`); either is escaped unless followed by `!`.
//! - A block marked `escape` or `noescape` (`div noescape { ... }`) sets
//!   escaping for everything inside it; unmarked blocks inherit.
//! - `if @a; == "x"; { ... } else if @a; != "y"; { ... } else { ... }`,
//!   `for item in @items;; { ... }` and
//!   `match @a;; { "x" => { ... }, _ => { ... } }` decide at render time.
//! - `script { "..." }` and `style { "..." }` are minified unless marked
//!   `nominify` (a body in which an HTML tag could open is written as it
//!   stands); their body may also be `@path;`. `script(name) { ... }` is
//!   hoisted: it renders where `script_use name;` stands (the last one
//!   declared under that name before its first use).
//! - Definitions: `name(a, b) => body` is a component, called as
//!   `call name { a { ... }, b { ... } }` (a trailing `!` turns escaping off for
//!   the call), where `@a;` in the body stands for the tokens given for `a`;
//!   `layout base => ... block slot; ...` is a layout; and
//!   `page @base => extend slot { ... }` fills the slots of a layout.
//! - `i "path"` is the text of a file that the application added to the
//!   definitions with `Templates::add_include`, escaped like a literal.
//! - Where the definitions have escaping or minification switched off, it is
//!   skipped and nothing else changes.

mod outside;

pub mod error;
pub mod lexer;
pub mod attrs;
pub mod ast;
pub mod plan;
pub mod render;
pub mod splice;
pub mod component;
pub mod parser;
pub mod grammar;
pub mod template;
pub mod laws;

pub use ast::{Binding, Node, Value};
pub use attrs::{Attr, AttributeValue, resolve_attributes};
pub use component::{Component, ComponentKind, Templates};
pub use error::{Error, ErrorKind};
pub use parser::{AttributeKey, Attributes};
pub use plan::{Op, Plan};
pub use render::Origami;
pub use template::{Anon, Children, anon, comp};
