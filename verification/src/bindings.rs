//! Parsing of user-facing key-binding patterns such as `M-S-Return` into a
//! modifier mask and keycode against a keycode table.
//!
//! A pattern is split on `-`: the final segment is the key name, every
//! earlier segment a modifier prefix drawn from `A` (Alt), `M` (Super),
//! `S` (Shift) and `C` (Control).  An unknown key name yields no binding at
//! all (keyboard layouts vary); an unknown modifier prefix is a fatal
//! configuration error.

use vstd::prelude::*;
use vstd::string::*;
use crate::keymap::{lookup, CodeMap};
use crate::text::{lemma_split_at_len, split_at, split_on};

verus! {

/// The Shift bit of the X11 modifier mask.
pub const MASK_SHIFT: u16 = 1;

/// The Control bit of the X11 modifier mask.
pub const MASK_CONTROL: u16 = 4;

/// The Mod1 bit of the X11 modifier mask, conventionally Alt.
pub const MASK_ALT: u16 = 8;

/// The Mod4 bit of the X11 modifier mask, conventionally Super.
pub const MASK_SUPER: u16 = 64;

/// A parsed key binding: the modifier bits that must be held together with
/// the key that emits `code`.
#[derive(Clone, Copy, Debug, PartialEq, Eq, Structural, Hash)]
pub struct KeyCode {
    pub mask: u16,
    pub code: u8,
}

/// Whether a modifier token is one of the four recognized prefixes.
pub open spec fn mod_recognized(tok: Seq<char>) -> bool {
    tok == seq!['A'] || tok == seq!['M'] || tok == seq!['S'] || tok == seq!['C']
}

/// The mask bit of a modifier prefix: `A` is Alt, `M` is Super, `S` is
/// Shift, `C` is Control.
pub open spec fn mod_bit(tok: Seq<char>) -> u16 {
    if tok == seq!['A'] {
        MASK_ALT
    } else if tok == seq!['M'] {
        MASK_SUPER
    } else if tok == seq!['S'] {
        MASK_SHIFT
    } else if tok == seq!['C'] {
        MASK_CONTROL
    } else {
        0
    }
}

/// The bitwise-OR of the bits of a list of modifier tokens.
pub open spec fn mask_of(toks: Seq<Seq<char>>) -> u16
    decreases toks.len(),
{
    if toks.len() == 0 {
        0
    } else {
        mask_of(toks.drop_last()) | mod_bit(toks.last())
    }
}

/// Every token of the list is a recognized modifier prefix.
pub open spec fn all_recognized(toks: Seq<Seq<char>>) -> bool {
    forall|i: int| 0 <= i < toks.len() ==> mod_recognized(#[trigger] toks[i])
}

/// The modifier tokens of a pattern: every `-`-delimited segment before the
/// last.
pub open spec fn pattern_mods(p: Seq<char>) -> Seq<Seq<char>> {
    split_at(p, '-').drop_last()
}

/// The key name of a pattern: its final `-`-delimited segment.
pub open spec fn pattern_key(p: Seq<char>) -> Seq<char> {
    split_at(p, '-').last()
}

/// A modifier prefix outside the recognized set: a mistake in the binding
/// table itself, fatal for configuration loading.
#[derive(Debug)]
pub struct BindingError {
    pub token: String,
}

impl BindingError {
    /// The failure rendered as text for diagnostics.
    pub fn message(&self) -> (r: String)
        ensures
            r@ == "invalid key binding prefix: "@ + self.token@,
    {
        let mut s = String::from_str("invalid key binding prefix: ");
        s.append(self.token.as_str());
        s
    }
}

/// Parses a binding pattern against the keycode table.  An unknown key name
/// gives `Ok(None)`; a known key with recognized prefixes gives the combined
/// mask and the key's code; a known key with an unrecognized prefix is an
/// error naming the first such prefix.
pub fn parse_key_binding(pattern: &str, known_codes: &CodeMap) -> (r: Result<
    Option<KeyCode>,
    BindingError,
>)
    ensures
        lookup(known_codes@, pattern_key(pattern@)) is None ==> r == Ok::<
            Option<KeyCode>,
            BindingError,
        >(None),
        r matches Ok(Some(kc)) ==> lookup(known_codes@, pattern_key(pattern@)) == Some(kc.code)
            && all_recognized(pattern_mods(pattern@)) && kc.mask == mask_of(
            pattern_mods(pattern@),
        ),
        lookup(known_codes@, pattern_key(pattern@)) is Some && all_recognized(
            pattern_mods(pattern@),
        ) ==> (r matches Ok(Some(kc)) && kc.mask == mask_of(pattern_mods(pattern@)) && Some(
            kc.code,
        ) == lookup(known_codes@, pattern_key(pattern@))),
        lookup(known_codes@, pattern_key(pattern@)) is Some && !all_recognized(
            pattern_mods(pattern@),
        ) ==> r is Err,
        r matches Err(e) ==> lookup(known_codes@, pattern_key(pattern@)) is Some && exists|i: int|
            0 <= i < pattern_mods(pattern@).len() && e.token@ == pattern_mods(pattern@)[i]
                && !mod_recognized(#[trigger] pattern_mods(pattern@)[i]) && forall|j: int|
                0 <= j < i ==> mod_recognized(#[trigger] pattern_mods(pattern@)[j]),
{
    let parts = split_on(pattern, '-');
    proof {
        lemma_split_at_len(pattern@, '-');
    }
    let np = parts.len();
    let ghost mods = pattern_mods(pattern@);
    proof {
        assert(parts.deep_view()[np - 1] == parts@[np - 1]@);
        assert(parts@[np - 1]@ == pattern_key(pattern@));
    }
    match known_codes.get(parts[np - 1].as_str()) {
        None => Ok(None),
        Some(code) => {
            let mut mask: u16 = 0;
            let mut i: usize = 0;
            proof {
                assert(mods.take(0) =~~= Seq::<Seq<char>>::empty());
            }
            while i < np - 1
                invariant
                    i <= np - 1,
                    np == parts.len(),
                    np >= 1,
                    parts.deep_view() == split_at(pattern@, '-'),
                    mods == pattern_mods(pattern@),
                    lookup(known_codes@, pattern_key(pattern@)) == Some(code),
                    forall|j: int| 0 <= j < i ==> mod_recognized(#[trigger] mods[j]),
                    mask == mask_of(mods.take(i as int)),
                decreases np - 1 - i,
            {
                proof {
                    assert(parts.deep_view()[i as int] == parts@[i as int]@);
                    assert(mods[i as int] == parts@[i as int]@);
                    assert(mods.take(i + 1).drop_last() =~= mods.take(i as int));
                    assert(mods.take(i + 1).last() == mods[i as int]);
                }
                let ts = parts[i].as_str();
                let single = ts.unicode_len() == 1;
                let c = if single {
                    ts.get_char(0)
                } else {
                    ' '
                };
                proof {
                    if single {
                        assert(ts@ =~= seq![ts@[0]]);
                    }
                }
                let bit: u16 = if single && c == 'A' {
                    MASK_ALT
                } else if single && c == 'M' {
                    MASK_SUPER
                } else if single && c == 'S' {
                    MASK_SHIFT
                } else if single && c == 'C' {
                    MASK_CONTROL
                } else {
                    proof {
                        assert(!mod_recognized(mods[i as int])) by {
                            if mods[i as int] == seq!['A'] || mods[i as int] == seq!['M'] || mods[
                                i as int
                            ] == seq!['S'] || mods[i as int] == seq!['C'] {
                                assert(ts@.len() == 1);
                            }
                        }
                    }
                    return Err(BindingError { token: parts[i].clone() });
                };
                proof {
                    assert(mod_recognized(mods[i as int]));
                    assert(bit == mod_bit(mods[i as int]));
                }
                mask = mask | bit;
                i = i + 1;
            }
            proof {
                assert(mods.take(np - 1) =~~= mods);
            }
            Ok(Some(KeyCode { mask, code }))
        },
    }
}

spec fn memb_bit(toks: Seq<Seq<char>>, t: Seq<char>) -> u16 {
    if toks.contains(t) {
        mod_bit(t)
    } else {
        0
    }
}

spec fn mask_closed(toks: Seq<Seq<char>>) -> u16 {
    memb_bit(toks, seq!['A']) | memb_bit(toks, seq!['M']) | memb_bit(toks, seq!['S']) | memb_bit(
        toks,
        seq!['C'],
    )
}

proof fn lemma_contains_push(s: Seq<Seq<char>>, t: Seq<char>, x: Seq<char>)
    ensures
        s.push(t).contains(x) <==> (s.contains(x) || x == t),
{
    if s.contains(x) {
        let k = choose|k: int| 0 <= k < s.len() && s[k] == x;
        assert(s.push(t)[k] == x);
    }
    if x == t {
        assert(s.push(t)[s.len() as int] == x);
    }
    if s.push(t).contains(x) {
        let k = choose|k: int| 0 <= k < s.push(t).len() && s.push(t)[k] == x;
        if k < s.len() {
            assert(s[k] == x);
        }
    }
}

proof fn lemma_mask_closed_form(toks: Seq<Seq<char>>)
    requires
        all_recognized(toks),
    ensures
        mask_of(toks) == mask_closed(toks),
    decreases toks.len(),
{
    if toks.len() == 0 {
        assert(!toks.contains(seq!['A']));
        assert(!toks.contains(seq!['M']));
        assert(!toks.contains(seq!['S']));
        assert(!toks.contains(seq!['C']));
        assert(0u16 | 0u16 | 0u16 | 0u16 == 0u16) by (bit_vector);
    } else {
        let s = toks.drop_last();
        let t = toks.last();
        assert(s.push(t) =~~= toks);
        assert(all_recognized(s)) by {
            assert(forall|j: int| 0 <= j < s.len() ==> (#[trigger] s[j]) == toks[j]);
        }
        lemma_mask_closed_form(s);
        lemma_contains_push(s, t, seq!['A']);
        lemma_contains_push(s, t, seq!['M']);
        lemma_contains_push(s, t, seq!['S']);
        lemma_contains_push(s, t, seq!['C']);
        assert(seq!['A'][0] == 'A' && seq!['M'][0] == 'M' && seq!['S'][0] == 'S' && seq!['C'][0]
            == 'C');
        let xa = memb_bit(s, seq!['A']);
        let xm = memb_bit(s, seq!['M']);
        let xs = memb_bit(s, seq!['S']);
        let xc = memb_bit(s, seq!['C']);
        if t == seq!['A'] {
            assert(((0u16 | xm | xs | xc) | 8 == 8 | xm | xs | xc) && ((8u16 | xm | xs | xc) | 8
                == 8 | xm | xs | xc)) by (bit_vector);
        } else if t == seq!['M'] {
            assert(((xa | 0u16 | xs | xc) | 64 == xa | 64 | xs | xc) && ((xa | 64u16 | xs | xc)
                | 64 == xa | 64 | xs | xc)) by (bit_vector);
        } else if t == seq!['S'] {
            assert(((xa | xm | 0u16 | xc) | 1 == xa | xm | 1 | xc) && ((xa | xm | 1u16 | xc) | 1
                == xa | xm | 1 | xc)) by (bit_vector);
        } else {
            assert(t == seq!['C']);
            assert(((xa | xm | xs | 0u16) | 4 == xa | xm | xs | 4) && ((xa | xm | xs | 4u16) | 4
                == xa | xm | xs | 4)) by (bit_vector);
        }
    }
}

/// Law: the modifier mask does not depend on the order of the prefixes, nor
/// on repetition — two lists of recognized modifier tokens with the same
/// members combine to the same mask.
pub proof fn lemma_mask_order_independent(a: Seq<Seq<char>>, b: Seq<Seq<char>>)
    requires
        all_recognized(a),
        all_recognized(b),
        forall|t: Seq<char>| #[trigger] a.contains(t) <==> #[trigger] b.contains(t),
    ensures
        mask_of(a) == mask_of(b),
{
    lemma_mask_closed_form(a);
    lemma_mask_closed_form(b);
    assert(a.contains(seq!['A']) <==> b.contains(seq!['A']));
    assert(a.contains(seq!['M']) <==> b.contains(seq!['M']));
    assert(a.contains(seq!['S']) <==> b.contains(seq!['S']));
    assert(a.contains(seq!['C']) <==> b.contains(seq!['C']));
}

} // verus!
