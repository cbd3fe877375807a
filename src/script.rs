//! Splitting a migration script into statements.
use vstd::prelude::*;

use crate::order::ids_of;

verus! {

/// The Unicode white space characters, which carry no statement text.
pub open spec fn is_blank_char(c: char) -> bool {
    let u = c as u32;
    ||| 0x09 <= u <= 0x0D
    ||| u == 0x20 || u == 0x85 || u == 0xA0 || u == 0x1680
    ||| 0x2000 <= u <= 0x200A
    ||| u == 0x2028 || u == 0x2029 || u == 0x202F || u == 0x205F || u == 0x3000
}

/// Whether `c` is white space.
pub fn blank_char(c: char) -> (r: bool)
    ensures
        r == is_blank_char(c),
{
    let u = c as u32;
    (0x09 <= u && u <= 0x0D) || u == 0x20 || u == 0x85 || u == 0xA0 || u == 0x1680 || (0x2000 <= u
        && u <= 0x200A) || u == 0x2028 || u == 0x2029 || u == 0x202F || u == 0x205F || u == 0x3000
}

pub open spec fn blank(f: Seq<char>) -> bool {
    forall|i: int| 0 <= i < f.len() ==> is_blank_char(#[trigger] f[i])
}

/// Line breaks are sent as spaces.
pub open spec fn flatten(c: char) -> char {
    if c == '\n' {
        ' '
    } else {
        c
    }
}

/// The text between semicolons, line breaks flattened; always at least one
/// fragment, the last one possibly empty.
pub open spec fn fragments(t: Seq<char>) -> Seq<Seq<char>>
    decreases t.len(),
{
    if t.len() == 0 {
        seq![Seq::empty()]
    } else {
        let p = fragments(t.drop_last());
        if t.last() == ';' {
            p.push(Seq::empty())
        } else {
            p.update(p.len() - 1, p.last().push(flatten(t.last())))
        }
    }
}

/// The fragments that are not blank, in order.
pub open spec fn keep(f: Seq<Seq<char>>) -> Seq<Seq<char>>
    decreases f.len(),
{
    if f.len() == 0 {
        Seq::empty()
    } else if blank(f.last()) {
        keep(f.drop_last())
    } else {
        keep(f.drop_last()).push(f.last())
    }
}

/// The statements of a script, in textual order.
pub open spec fn statements_of(t: Seq<char>) -> Seq<Seq<char>> {
    keep(fragments(t))
}

/// Relies on `str::chars`, collected: the characters of the text in order.
#[verifier::external_body]
fn chars_of(s: &str) -> (r: Vec<char>)
    ensures
        r@ == s@,
{
    s.chars().collect()
}

/// Relies on `String: FromIterator<&char>`: the string of those characters.
#[verifier::external_body]
fn text_of(cs: &Vec<char>) -> (r: String)
    ensures
        r@ == cs@,
{
    cs.iter().collect()
}

/// Splits a script on `;`, turns line breaks into spaces and drops the
/// fragments that hold only white space, the trailing one included.
pub fn split_statements(script: &str) -> (r: Vec<String>)
    ensures
        ids_of(r@) == statements_of(script@),
        (forall|i: int| 0 <= i < script@.len() ==> is_blank_char(#[trigger] script@[i])) ==> r@.len()
            == 0,
{
    let cs = chars_of(script);
    let mut out: Vec<String> = Vec::new();
    let mut cur: Vec<char> = Vec::new();
    let mut cur_blank = true;
    let mut i: usize = 0;
    assert(cs@.subrange(0, 0) =~= Seq::<char>::empty());
    while i < cs.len()
        invariant
            cs@ == script@,
            i <= cs@.len(),
            fragments(cs@.subrange(0, i as int)).len() >= 1,
            fragments(cs@.subrange(0, i as int)).last() == cur@,
            cur_blank == blank(cur@),
            ids_of(out@) == keep(fragments(cs@.subrange(0, i as int)).drop_last()),
            (forall|k: int| 0 <= k < i ==> is_blank_char(#[trigger] cs@[k])) ==> out@.len() == 0
                && cur_blank,
        decreases cs@.len() - i,
    {
        let ghost f = fragments(cs@.subrange(0, i as int));
        let c = cs[i];
        assert(cs@.subrange(0, i + 1).drop_last() =~= cs@.subrange(0, i as int));
        assert(cs@.subrange(0, i + 1).last() == c);
        if c == ';' {
            let ghost g = f.push(Seq::empty());
            assert(g.drop_last() =~= f);
            if !cur_blank {
                let s = text_of(&cur);
                out.push(s);
                assert(ids_of(out@) =~= keep(f));
            } else {
                assert(ids_of(out@) =~= keep(f));
            }
            cur = Vec::new();
            cur_blank = true;
            assert(cur@ =~= Seq::<char>::empty());
        } else {
            let x = if c == '\n' {
                ' '
            } else {
                c
            };
            let ghost before = cur@;
            let ghost g = f.update(f.len() - 1, f.last().push(x));
            assert(g.drop_last() =~= f.drop_last());
            cur.push(x);
            assert(cur@ == before.push(x));
            cur_blank = cur_blank && blank_char(x);
            assert(cur_blank == blank(cur@)) by {
                if blank(cur@) {
                    assert(is_blank_char(cur@[before.len() as int]));
                    assert forall|k: int| 0 <= k < before.len() implies is_blank_char(#[trigger] before[k]) by {
                        assert(before[k] == cur@[k]);
                    }
                }
                if cur_blank {
                    assert forall|k: int| 0 <= k < cur@.len() implies is_blank_char(#[trigger] cur@[k]) by {
                        if k < before.len() {
                            assert(cur@[k] == before[k]);
                        }
                    }
                }
            }
        }
        i = i + 1;
    }
    assert(cs@.subrange(0, i as int) =~= cs@);
    let ghost f = fragments(cs@);
    if !cur_blank {
        let s = text_of(&cur);
        out.push(s);
        assert(ids_of(out@) =~= keep(f));
    } else {
        assert(ids_of(out@) =~= keep(f));
    }
    out
}

} // verus!
