//! A host-rewrite engine: an ordered list of rules, each a regex pattern and a
//! template with positional `{n}` placeholders, is applied to a host string.
//! The first rule whose pattern matches the whole host (patterns are
//! implicitly anchored) wins, and its template, with the captured groups
//! substituted in, becomes the rewritten host.

pub mod chars;
pub mod engine;
pub mod regex_link;
pub mod subst;

pub use engine::{find_match, match_rule, rewrite, InvalidPattern, Rule};
pub use subst::substitute;
