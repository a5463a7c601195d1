use vstd::prelude::*;

use crate::text::{push_char, spaces, views_of};

verus! {

/// A line moved right by `padding` spaces; an empty line stays empty.
pub open spec fn pad_line(line: Seq<char>, padding: nat) -> Seq<char> {
    if line.len() == 0 {
        seq![]
    } else {
        spaces(padding) + line
    }
}

/// Each of `lines` moved right by `padding` spaces; empty lines stay empty.
pub fn pad_lines(lines: &Vec<String>, padding: usize) -> (v: Vec<String>)
    ensures
        v@.len() == lines@.len(),
        forall|i: int| 0 <= i < lines@.len() ==> (#[trigger] v@[i])@ == pad_line(lines@[i]@, padding as nat),
{
    let mut v: Vec<String> = Vec::new();
    let mut i: usize = 0;
    while i < lines.len()
        invariant
            0 <= i <= lines.len(),
            v@.len() == i,
            forall|j: int| 0 <= j < i ==> (#[trigger] v@[j])@ == pad_line(lines@[j]@, padding as nat),
        decreases lines.len() - i,
    {
        let line = &lines[i];
        if line.as_str().unicode_len() == 0 {
            v.push(String::new());
        } else {
            let mut padded = String::new();
            let mut k: usize = 0;
            while k < padding
                invariant
                    0 <= k <= padding,
                    padded@ == spaces(k as nat),
                decreases padding - k,
            {
                push_char(&mut padded, ' ');
                assert(padded@ =~= spaces((k + 1) as nat));
                k = k + 1;
            }
            padded.append(line.as_str());
            v.push(padded);
        }
        i = i + 1;
    }
    v
}

/// `lines` followed by one empty line.
pub fn space_bottom(lines: &[String]) -> (v: Vec<String>)
    ensures
        views_of(v@) == views_of(lines@).push(seq![]),
{
    let mut v: Vec<String> = Vec::new();
    let mut i: usize = 0;
    while i < lines.len()
        invariant
            0 <= i <= lines.len(),
            views_of(v@) == views_of(lines@.take(i as int)),
        decreases lines.len() - i,
    {
        let ghost before = v@;
        v.push(lines[i].clone());
        assert(views_of(v@) =~= views_of(before).push(lines@[i as int]@));
        assert(views_of(lines@.take(i + 1)) =~= views_of(lines@.take(i as int)).push(lines@[i as int]@));
        i = i + 1;
    }
    assert(lines@.take(lines.len() as int) =~= lines@);
    let ghost before = v@;
    v.push(String::new());
    assert(views_of(v@) =~= views_of(before).push(seq![]));
    v
}

} // verus!
