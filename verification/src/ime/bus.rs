//! The IBus bus address in the text of a bus file
//! (`~/.config/ibus/bus/*`): the rest of the first line that starts with
//! `IBUS_ADDRESS=` and has something after it.
use vstd::prelude::*;
use crate::text::{chars_of, chars_range, chars_starts_with, split_lines, starts_with, string_of, text_lines};

verus! {

/// `IBUS_ADDRESS=`.
pub open spec fn address_key() -> Seq<char> {
    seq!['I', 'B', 'U', 'S', '_', 'A', 'D', 'D', 'R', 'E', 'S', 'S', '=']
}

/// The address a line gives, if it starts with the key and has something after it.
pub open spec fn line_address(l: Seq<char>) -> Option<Seq<char>> {
    if starts_with(l, address_key()) && l.len() > address_key().len() {
        Some(l.skip(address_key().len() as int))
    } else {
        None
    }
}

/// The address of the first line from `i` on that gives one.
pub open spec fn first_address(ls: Seq<Seq<char>>, i: int) -> Option<Seq<char>>
    decreases ls.len() - i,
{
    if i < 0 || i >= ls.len() {
        None
    } else if line_address(ls[i]) is Some {
        line_address(ls[i])
    } else {
        first_address(ls, i + 1)
    }
}

/// The IBus bus address in the text of a bus file: the rest of the first
/// line that starts with `IBUS_ADDRESS=` and has something after it.
pub fn bus_address(contents: &str) -> (r: Option<String>)
    ensures
        match r {
            Some(a) => first_address(text_lines(contents@), 0) == Some(a@),
            None => first_address(text_lines(contents@), 0) is None,
        },
{
    let cs = chars_of(contents);
    let lines = split_lines(&cs);
    let ghost ls = text_lines(contents@);
    let key = vec!['I', 'B', 'U', 'S', '_', 'A', 'D', 'D', 'R', 'E', 'S', 'S', '='];
    assert(key@ =~= address_key());
    let mut t: usize = 0;
    while t < lines.len()
        invariant
            ls == text_lines(contents@),
            lines@.map_values(|v: Vec<char>| v@) == ls,
            key@ == address_key(),
            t <= lines@.len(),
            first_address(ls, 0) == first_address(ls, t as int),
        decreases lines.len() - t,
    {
        let line = &lines[t];
        assert(line@ == ls[t as int]);
        if chars_starts_with(line, &key) && line.len() > key.len() {
            let rest = chars_range(line, key.len(), line.len());
            assert(rest@ =~= line@.skip(key@.len() as int));
            assert(line_address(ls[t as int]) == Some(rest@));
            let a = string_of(&rest);
            assert(first_address(ls, t as int) == Some(a@));
            return Some(a);
        }
        t += 1;
    }
    None
}

} // verus!
