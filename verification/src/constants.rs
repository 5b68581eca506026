//! Delimiter characters that the boundary heuristics look for.

use vstd::prelude::*;

verus! {

pub const SINGLE_QUOTE: char = '\'';

pub const QUOTE: char = '"';

pub const CURLY_BRACE_LEFT: char = '{';

pub const CURLY_BRACE_RIGHT: char = '}';

pub const BRACKET_LEFT: char = '(';

pub const BRACKET_RIGHT: char = ')';

} // verus!
