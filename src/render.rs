use vstd::prelude::*;

use crate::text::{chars_of, string_of};

verus! {

/// Where the renderer stands: outside markup, or inside a tag.
#[derive(Debug, Clone, Copy, PartialEq, Eq, Structural)]
pub enum TagState {
    Outside,
    InsideTag,
}

/// One step of the renderer: '<' enters a tag and '>' leaves it, neither being shown; any
/// other character is shown only outside a tag.
pub open spec fn step_spec(state: TagState, c: char) -> (TagState, Option<char>) {
    if c == '<' {
        (TagState::InsideTag, None)
    } else if c == '>' {
        (TagState::Outside, None)
    } else if state == TagState::Outside {
        (TagState::Outside, Some(c))
    } else {
        (TagState::InsideTag, None)
    }
}

/// The state and the text shown after the first `n` characters of `s`.
pub open spec fn render_prefix(s: Seq<char>, n: int) -> (TagState, Seq<char>)
    decreases n,
{
    if n <= 0 {
        (TagState::Outside, seq![])
    } else {
        let prev = render_prefix(s, n - 1);
        let (next, shown) = step_spec(prev.0, s[n - 1]);
        match shown {
            Some(c) => (next, prev.1.push(c)),
            None => (next, prev.1),
        }
    }
}

/// The text that `s` shows with its markup stripped.
pub open spec fn strip_spec(s: Seq<char>) -> Seq<char> {
    render_prefix(s, s.len() as int).1
}

/// One step of the renderer on the character `c`.
pub fn step(state: TagState, c: char) -> (r: (TagState, Option<char>))
    ensures
        r == step_spec(state, c),
{
    if c == '<' {
        (TagState::InsideTag, None)
    } else if c == '>' {
        (TagState::Outside, None)
    } else {
        match state {
            TagState::Outside => (TagState::Outside, Some(c)),
            TagState::InsideTag => (TagState::InsideTag, None),
        }
    }
}

/// The text of `body` with everything from a '<' to the next '>' removed; an unclosed tag
/// hides the rest of the text.
pub fn strip(body: &str) -> (r: String)
    ensures
        r@ == strip_spec(body@),
{
    let s = chars_of(body);
    let mut out: Vec<char> = Vec::new();
    let mut state = TagState::Outside;
    let mut i: usize = 0;
    while i < s.len()
        invariant
            i <= s@.len(),
            s@ == body@,
            render_prefix(s@, i as int) == (state, out@),
        decreases s.len() - i,
    {
        let (next, shown) = step(state, s[i]);
        match shown {
            Some(c) => out.push(c),
            None => {},
        }
        state = next;
        i = i + 1;
    }
    string_of(&out)
}

} // verus!
