//! The name-to-keycode table and its construction from the textual dump of
//! the system keymap.
//!
//! Each dump line has the shape `keycode <code> = <name> [<name> ...]`: the
//! second whitespace-delimited token is a decimal keycode below 256, and
//! every token after the third names that keycode.  A line with fewer than
//! two tokens, or whose second token is not such a numeral, is a fatal
//! configuration error.  A name listed on several lines keeps the code of
//! the later line.

use vstd::prelude::*;
use vstd::string::*;
use crate::text::{is_u8_numeral, lines_of, numeral_val, parse_u8, split_lines, words, words_of};

verus! {

/// A table from symbolic key names to numeric keycodes.  Its view is the
/// sequence of (name, code) pairs in insertion order; on duplicate names the
/// most recently inserted pair wins.
#[derive(Debug)]
pub struct CodeMap {
    entries: Vec<(String, u8)>,
}

impl View for CodeMap {
    type V = Seq<(Seq<char>, u8)>;

    closed spec fn view(&self) -> Seq<(Seq<char>, u8)> {
        self.entries.deep_view()
    }
}

/// The code paired with `name` in `m`, taking the latest pair when `name`
/// occurs more than once.
pub open spec fn lookup(m: Seq<(Seq<char>, u8)>, name: Seq<char>) -> Option<u8>
    decreases m.len(),
{
    if m.len() == 0 {
        None
    } else if m.last().0 == name {
        Some(m.last().1)
    } else {
        lookup(m.drop_last(), name)
    }
}

impl CodeMap {
    /// An empty table.
    pub fn new() -> (r: CodeMap)
        ensures
            r@ == Seq::<(Seq<char>, u8)>::empty(),
    {
        let r = CodeMap { entries: Vec::new() };
        proof {
            assert(r@ =~~= Seq::<(Seq<char>, u8)>::empty());
        }
        r
    }

    /// Adds a pair; for lookups it shadows any earlier pair with this name.
    pub fn insert(&mut self, name: String, code: u8)
        ensures
            final(self)@ == old(self)@.push((name@, code)),
    {
        let ghost nv = name@;
        let ghost old_v = self@;
        self.entries.push((name, code));
        proof {
            assert(self@ =~~= old_v.push((nv, code)));
        }
    }

    /// The number of pairs held.
    pub fn len(&self) -> (r: usize)
        ensures
            r == self@.len(),
    {
        self.entries.len()
    }

    /// The code bound to `name`, or nothing when no pair names it.
    pub fn get(&self, name: &str) -> (r: Option<u8>)
        ensures
            r == lookup(self@, name@),
    {
        let key = String::from_str(name);
        let mut i: usize = self.entries.len();
        proof {
            assert(self@.take(i as int) =~= self@);
        }
        while i > 0
            invariant
                i <= self.entries.len(),
                key@ == name@,
                lookup(self@.take(i as int), name@) == lookup(self@, name@),
            decreases i,
        {
            proof {
                assert(self@.take(i as int).drop_last() =~= self@.take(i - 1));
                assert(self@.take(i as int).last() == self@[i - 1]);
            }
            if self.entries[i - 1].0 == key {
                return Some(self.entries[i - 1].1);
            }
            i = i - 1;
        }
        proof {
            assert(self@.take(0) =~= Seq::<(Seq<char>, u8)>::empty());
        }
        None
    }
}

/// A keymap line that follows the expected shape.
pub open spec fn line_ok(line: Seq<char>) -> bool {
    words_of(line).len() >= 2 && is_u8_numeral(words_of(line)[1])
}

/// The keycode a keymap line assigns: the value of its second token.
pub open spec fn line_code(line: Seq<char>) -> int {
    numeral_val(words_of(line)[1])
}

/// The key names a keymap line lists: every token after the third.
pub open spec fn line_names(line: Seq<char>) -> Seq<Seq<char>> {
    if words_of(line).len() <= 3 {
        Seq::<Seq<char>>::empty()
    } else {
        words_of(line).skip(3)
    }
}

/// The (name, code) pairs a keymap line contributes.
pub open spec fn line_pairs(line: Seq<char>) -> Seq<(Seq<char>, u8)> {
    line_names(line).map_values(|n: Seq<char>| (n, line_code(line) as u8))
}

/// The pairs of a whole dump, line by line, in order.
pub open spec fn pairs_of_lines(ls: Seq<Seq<char>>) -> Seq<(Seq<char>, u8)>
    decreases ls.len(),
{
    if ls.len() == 0 {
        Seq::<(Seq<char>, u8)>::empty()
    } else {
        pairs_of_lines(ls.drop_last()) + line_pairs(ls.last())
    }
}

/// Every line of the dump follows the expected shape.
pub open spec fn keymap_ok(text: Seq<char>) -> bool {
    forall|i: int| 0 <= i < lines_of(text).len() ==> line_ok(#[trigger] lines_of(text)[i])
}

proof fn lemma_lookup_append(a: Seq<(Seq<char>, u8)>, b: Seq<(Seq<char>, u8)>, name: Seq<char>)
    ensures
        (exists|k: int| 0 <= k < b.len() && (#[trigger] b[k]).0 == name) ==> lookup(a + b, name)
            == lookup(b, name),
        !(exists|k: int| 0 <= k < b.len() && (#[trigger] b[k]).0 == name) ==> lookup(a + b, name)
            == lookup(a, name),
    decreases b.len(),
{
    if b.len() == 0 {
        assert(a + b =~= a);
    } else {
        assert((a + b).last() == b.last());
        if b.last().0 == name {
            assert(b[b.len() - 1].0 == name);
        } else {
            assert((a + b).drop_last() =~= a + b.drop_last());
            lemma_lookup_append(a, b.drop_last(), name);
            if exists|k: int| 0 <= k < b.len() && (#[trigger] b[k]).0 == name {
                let k = choose|k: int| 0 <= k < b.len() && (#[trigger] b[k]).0 == name;
                assert(k < b.len() - 1);
                assert(b.drop_last()[k] == b[k]);
            } else {
                assert(forall|k: int|
                    0 <= k < b.drop_last().len() ==> (#[trigger] b.drop_last()[k]) == b[k]);
            }
        }
    }
}

proof fn lemma_lookup_all_same(m: Seq<(Seq<char>, u8)>, name: Seq<char>, c: u8)
    requires
        forall|k: int| 0 <= k < m.len() ==> (#[trigger] m[k]).1 == c,
        exists|k: int| 0 <= k < m.len() && (#[trigger] m[k]).0 == name,
    ensures
        lookup(m, name) == Some(c),
    decreases m.len(),
{
    assert(m.len() > 0);
    if m.last().0 == name {
        assert(m.last() == m[m.len() - 1]);
    } else {
        let k = choose|k: int| 0 <= k < m.len() && (#[trigger] m[k]).0 == name;
        assert(k < m.len() - 1);
        assert(m.drop_last()[k] == m[k]);
        assert(forall|k2: int|
            0 <= k2 < m.drop_last().len() ==> (#[trigger] m.drop_last()[k2]) == m[k2]);
        lemma_lookup_all_same(m.drop_last(), name, c);
    }
}

proof fn lemma_lookup_last_line(ls: Seq<Seq<char>>, i: int, name: Seq<char>)
    requires
        0 <= i < ls.len(),
        line_names(ls[i]).contains(name),
        forall|j: int| i < j < ls.len() ==> !line_names(#[trigger] ls[j]).contains(name),
    ensures
        lookup(pairs_of_lines(ls), name) == Some(line_code(ls[i]) as u8),
    decreases ls.len(),
{
    let last = ls.last();
    let pl = line_pairs(last);
    let rest = pairs_of_lines(ls.drop_last());
    lemma_lookup_append(rest, pl, name);
    if i == ls.len() - 1 {
        let k = choose|k: int|
            0 <= k < line_names(last).len() && #[trigger] line_names(last)[k] == name;
        assert(pl[k].0 == name);
        assert(forall|k2: int| 0 <= k2 < pl.len() ==> (#[trigger] pl[k2]).1 == line_code(
            last,
        ) as u8);
        lemma_lookup_all_same(pl, name, line_code(last) as u8);
    } else {
        assert(!line_names(last).contains(name));
        assert forall|k: int| 0 <= k < pl.len() implies (#[trigger] pl[k]).0 != name by {
            assert(pl[k].0 == line_names(last)[k]);
            if pl[k].0 == name {
                assert(line_names(last).contains(name));
            }
        }
        assert(forall|j: int|
            0 <= j < ls.drop_last().len() ==> (#[trigger] ls.drop_last()[j]) == ls[j]);
        lemma_lookup_last_line(ls.drop_last(), i, name);
    }
}

/// Law: in a well-shaped keymap dump, every listed name maps to the keycode
/// on its own line; a name listed on several lines takes the code of the
/// last line that lists it.
pub proof fn lemma_keymap_last_line_wins(text: Seq<char>, i: int, name: Seq<char>)
    requires
        keymap_ok(text),
        0 <= i < lines_of(text).len(),
        line_names(lines_of(text)[i]).contains(name),
        forall|j: int|
            i < j < lines_of(text).len() ==> !line_names(#[trigger] lines_of(text)[j]).contains(
                name,
            ),
    ensures
        lookup(pairs_of_lines(lines_of(text)), name) == Some(line_code(lines_of(text)[i]) as u8),
{
    lemma_lookup_last_line(lines_of(text), i, name);
}

/// A keymap dump line that does not follow `keycode <code> = <names ...>`.
/// Such a dump leaves the binding table unusable, so the whole build fails.
#[derive(Debug)]
pub struct KeymapError {
    pub line_index: usize,
    pub line: String,
}

impl KeymapError {
    /// The failure rendered as text for diagnostics.
    pub fn message(&self) -> (r: String)
        ensures
            r@ == "malformed keymap line "@ + crate::text::decimal_of(self.line_index as int)
                + ": "@ + self.line@,
    {
        let mut s = String::from_str("malformed keymap line ");
        let num = crate::text::decimal_string(self.line_index as u64);
        s.append(num.as_str());
        s.append(": ");
        s.append(self.line.as_str());
        s
    }
}

/// Builds the keycode table from the text of a keymap dump.  Succeeds
/// exactly when every line is well-shaped, and then holds one pair per
/// listed name per line, in order; the error names the first bad line.
pub fn keycodes_from_keymap_text(text: &str) -> (r: Result<CodeMap, KeymapError>)
    ensures
        r is Ok <==> keymap_ok(text@),
        r matches Ok(m) ==> m@ == pairs_of_lines(lines_of(text@)),
        r matches Err(e) ==> 0 <= e.line_index < lines_of(text@).len() && !line_ok(
            lines_of(text@)[e.line_index as int],
        ) && e.line@ == lines_of(text@)[e.line_index as int] && forall|j: int|
            0 <= j < e.line_index ==> line_ok(#[trigger] lines_of(text@)[j]),
{
    let lines = split_lines(text);
    let mut m = CodeMap::new();
    let mut li: usize = 0;
    proof {
        assert(lines_of(text@).take(0) =~= Seq::<Seq<char>>::empty());
    }
    while li < lines.len()
        invariant
            li <= lines.len(),
            lines.deep_view() == lines_of(text@),
            forall|j: int| 0 <= j < li ==> line_ok(#[trigger] lines_of(text@)[j]),
            m@ == pairs_of_lines(lines_of(text@).take(li as int)),
        decreases lines.len() - li,
    {
        let ghost line_v = lines_of(text@)[li as int];
        let ws = words(lines[li].as_str());
        proof {
            assert(ws.deep_view() == words_of(line_v));
        }
        if ws.len() < 2 {
            return Err(KeymapError { line_index: li, line: lines[li].clone() });
        }
        let code = match parse_u8(ws[1].as_str()) {
            Some(c) => c,
            None => {
                proof {
                    assert(ws[1]@ == words_of(line_v)[1]);
                }
                return Err(KeymapError { line_index: li, line: lines[li].clone() });
            },
        };
        proof {
            assert(ws[1]@ == words_of(line_v)[1]);
            assert(line_ok(line_v));
            crate::text::lemma_numeral_nonneg(words_of(line_v)[1]);
            assert(code == line_code(line_v) as u8);
            assert(line_pairs(line_v).take(0) =~= Seq::<(Seq<char>, u8)>::empty());
            assert(m@ + line_pairs(line_v).take(0) =~~= m@);
        }
        let ghost outer = pairs_of_lines(lines_of(text@).take(li as int));
        let nn: usize = if ws.len() <= 3 {
            0
        } else {
            ws.len() - 3
        };
        proof {
            assert(line_names(line_v).len() == nn);
        }
        let mut k: usize = 0;
        while k < nn
            invariant
                k <= nn,
                nn == line_names(line_v).len(),
                nn > 0 ==> nn + 3 == ws.len(),
                ws.deep_view() == words_of(line_v),
                code == line_code(line_v) as u8,
                m@ == outer + line_pairs(line_v).take(k as int),
            decreases nn - k,
        {
            m.insert(ws[k + 3].clone(), code);
            proof {
                assert(ws[k + 3 as int]@ == words_of(line_v)[k + 3]);
                assert(line_names(line_v)[k as int] == words_of(line_v)[k + 3]);
                assert(line_pairs(line_v)[k as int] == (line_names(line_v)[k as int], code));
                assert(line_pairs(line_v).take(k + 1) =~~= line_pairs(line_v).take(
                    k as int,
                ).push(line_pairs(line_v)[k as int]));
                assert(m@ =~~= outer + line_pairs(line_v).take(k + 1));
            }
            k = k + 1;
        }
        proof {
            assert(line_pairs(line_v).take(nn as int) =~~= line_pairs(line_v));
            assert(lines_of(text@).take(li + 1).drop_last() =~= lines_of(text@).take(li as int));
            assert(lines_of(text@).take(li + 1).last() == line_v);
            assert(m@ =~~= pairs_of_lines(lines_of(text@).take(li + 1)));
        }
        li = li + 1;
    }
    proof {
        assert(lines_of(text@).take(lines.len() as int) =~= lines_of(text@));
    }
    Ok(m)
}

} // verus!
