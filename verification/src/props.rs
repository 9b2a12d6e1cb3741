//! Resolution of named window properties over an established X11
//! connection.
//!
//! Each resolution is two protocol round trips: the property name is
//! interned to an atom, then the property is fetched for the window with
//! any type, zero offset and a fixed bound of [`PROP_WORD_BOUND`] 32-bit
//! words — a payload beyond that bound is silently truncated by the server,
//! not rejected.  The string path decodes the payload as UTF-8 text; the
//! integer path returns the payload's first full 32-bit word and treats a
//! payload without one as an error, never as zero.

use vstd::prelude::*;
use vstd::string::*;
use vstd::utf8::{decode_utf8, valid_utf8};

verus! {

/// How many 32-bit words of payload one property fetch requests.
pub const PROP_WORD_BOUND: u32 = 1024;

/// Declares xcb::Connection, the caller's open connection to the X server,
/// so that the resolvers can take it by reference; the library never
/// creates, stores or closes one.
#[verifier::external_type_specification]
#[verifier::external_body]
pub struct ExConnection(xcb::Connection);

/// Relies on xcb::intern_atom and InternAtomCookie::get_reply: a successful
/// reply carries the server's atom identifier for `name`, which is zero
/// when `only_if_exists` was set and the server does not know the name.
/// The error value is the protocol error, rendered as text.
#[verifier::external_body]
fn intern_atom_call(conn: &xcb::Connection, only_if_exists: bool, name: &str) -> (r: Result<
    u32,
    String,
>) {
    match xcb::intern_atom(conn, only_if_exists, name).get_reply() {
        Ok(reply) => Ok(reply.atom()),
        Err(e) => Err(format!("{}", e)),
    }
}

/// Relies on xcb::get_property (no delete, any type, zero offset, at most
/// `len_words` 32-bit words) and GetPropertyReply::value::<u8>: a successful
/// reply carries the property's payload bytes, which the server truncates
/// to at most `4 * len_words` of them.
#[verifier::external_body]
fn get_property_bytes(conn: &xcb::Connection, id: u32, atom: u32, len_words: u32) -> (r: Result<
    Vec<u8>,
    String,
>)
    ensures
        r matches Ok(v) ==> v@.len() <= 4 * len_words,
{
    match xcb::get_property(conn, false, id, atom, xcb::ATOM_ANY, 0, len_words).get_reply() {
        Ok(reply) => Ok(reply.value::<u8>().to_vec()),
        Err(e) => Err(format!("{}", e)),
    }
}

/// Relies on u32::from_ne_bytes: the four payload bytes read as one 32-bit
/// word in the machine's own byte order — the layout in which the protocol
/// library hands a 32-bit property value to the client.
#[verifier::external_body]
fn native_word(b0: u8, b1: u8, b2: u8, b3: u8) -> (r: u32) {
    u32::from_ne_bytes([b0, b1, b2, b3])
}

/// The full 32-bit words of a property payload, in order: one per four
/// bytes, each read in the machine's byte order, a trailing partial word
/// dropped.
pub fn payload_words(bytes: &Vec<u8>) -> (r: Vec<u32>)
    ensures
        4 * r@.len() <= bytes@.len() < 4 * (r@.len() + 1),
{
    let mut r: Vec<u32> = Vec::new();
    let mut i: usize = 0;
    while bytes.len() - i >= 4
        invariant
            i == 4 * r@.len(),
            i <= bytes@.len(),
        decreases bytes@.len() - i,
    {
        let w = native_word(bytes[i], bytes[i + 1], bytes[i + 2], bytes[i + 3]);
        r.push(w);
        i = i + 4;
    }
    r
}

/// Relies on String::from_utf8: it succeeds exactly on a valid UTF-8
/// encoding, and then returns the characters that the bytes encode.
#[verifier::external_body]
fn string_from_utf8(bytes: Vec<u8>) -> (r: Option<String>)
    ensures
        r is Some <==> valid_utf8(bytes@),
        r matches Some(s) ==> s@ == decode_utf8(bytes@),
{
    String::from_utf8(bytes).ok()
}

/// Why a property resolution failed.  The four cases are distinct so that a
/// caller can tell an unknown name from a failed fetch, an undecodable
/// payload and an empty one; none is ever coerced to a default value.
#[derive(Debug)]
pub enum ResolveError {
    /// The name could not be resolved to an atom: the request failed, or
    /// the lookup-only path asked for a name the server does not know.
    AtomLookup { name: String, detail: String },
    /// The property fetch for the window failed.
    PropertyFetch { detail: String },
    /// The payload of a string property was not valid UTF-8.
    Utf8Decode { name: String },
    /// The payload of an integer property was empty.
    EmptyProperty { name: String, id: u32 },
}

impl ResolveError {
    /// The failure rendered as text for diagnostics.
    pub fn message(&self) -> (r: String)
        ensures
            self matches ResolveError::AtomLookup { name, detail } ==> r@
                == "unable to fetch xcb atom '"@ + name@ + "': "@ + detail@,
            self matches ResolveError::PropertyFetch { detail } ==> r@
                == "unable to fetch window property: "@ + detail@,
            self matches ResolveError::Utf8Decode { name } ==> r@
                == "invalid utf8 response for property '"@ + name@ + "'"@,
            self matches ResolveError::EmptyProperty { name, id } ==> r@ == "property '"@ + name@
                + "' was empty for id: "@ + crate::text::decimal_of(id as int),
    {
        match self {
            ResolveError::AtomLookup { name, detail } => {
                let mut s = String::from_str("unable to fetch xcb atom '");
                s.append(name.as_str());
                s.append("': ");
                s.append(detail.as_str());
                s
            },
            ResolveError::PropertyFetch { detail } => {
                let mut s = String::from_str("unable to fetch window property: ");
                s.append(detail.as_str());
                s
            },
            ResolveError::Utf8Decode { name } => {
                let mut s = String::from_str("invalid utf8 response for property '");
                s.append(name.as_str());
                s.append("'");
                s
            },
            ResolveError::EmptyProperty { name, id } => {
                let mut s = String::from_str("property '");
                s.append(name.as_str());
                s.append("' was empty for id: ");
                let num = crate::text::decimal_string(*id as u64);
                s.append(num.as_str());
                s
            },
        }
    }
}

/// Decodes a property payload as UTF-8 text; an invalid encoding is a
/// decode error naming the property.
pub fn decode_text_payload(name: &str, bytes: Vec<u8>) -> (r: Result<String, ResolveError>)
    ensures
        valid_utf8(bytes@) ==> (r matches Ok(s) && s@ == decode_utf8(bytes@)),
        !valid_utf8(bytes@) ==> (r matches Err(e) && (e matches ResolveError::Utf8Decode {
            name: n,
        } && n@ == name@)),
{
    match string_from_utf8(bytes) {
        Some(s) => Ok(s),
        None => Err(ResolveError::Utf8Decode { name: String::from_str(name) }),
    }
}

/// The first 32-bit word of a property payload; an empty payload is the
/// empty-property error for this name and window, never a default of zero.
pub fn first_property_word(name: &str, id: u32, words: &Vec<u32>) -> (r: Result<u32, ResolveError>)
    ensures
        words@.len() > 0 ==> r == Ok::<u32, ResolveError>(words@[0]),
        words@.len() == 0 ==> (r matches Err(e) && (e matches ResolveError::EmptyProperty {
            name: n,
            id: i,
        } && n@ == name@ && i == id)),
{
    if words.len() == 0 {
        Err(ResolveError::EmptyProperty { name: String::from_str(name), id })
    } else {
        Ok(words[0])
    }
}

/// Accepts the atom of a lookup-only interning: the server answers zero for
/// a name it does not know, and that is an atom-resolution failure — the
/// caller must not go on to a property fetch with it.
pub fn require_known_atom(name: &str, atom: u32) -> (r: Result<u32, ResolveError>)
    ensures
        atom != 0 ==> r == Ok::<u32, ResolveError>(atom),
        atom == 0 ==> (r matches Err(e) && (e matches ResolveError::AtomLookup {
            name: n,
            detail: _,
        } && n@ == name@)),
{
    if atom == 0 {
        Err(
            ResolveError::AtomLookup {
                name: String::from_str(name),
                detail: String::from_str("the server has no atom of this name"),
            },
        )
    } else {
        Ok(atom)
    }
}

/// Law: text round-trips through a property payload — a property written
/// as the UTF-8 encoding of some text is a valid payload, and the string
/// path's decoding of it is that text again.
pub proof fn lemma_text_payload_round_trip(chars: Seq<char>)
    ensures
        valid_utf8(vstd::utf8::encode_utf8(chars)),
        decode_utf8(vstd::utf8::encode_utf8(chars)) == chars,
{
    vstd::utf8::encode_utf8_valid_utf8(chars);
    vstd::utf8::encode_utf8_decode_utf8(chars);
}

/// Resolves `name` to an atom — creating it if absent — then fetches the
/// window's property and decodes it as UTF-8 text.  Every success is the
/// decoding of a valid payload within the word bound; an error names the
/// stage that failed and is never the empty-property case.
pub fn str_prop(conn: &xcb::Connection, id: u32, name: &str) -> (r: Result<String, ResolveError>)
    ensures
        r matches Ok(s) ==> exists|bytes: Seq<u8>|
            valid_utf8(bytes) && #[trigger] decode_utf8(bytes) == s@ && bytes.len() <= 4
                * PROP_WORD_BOUND,
        r matches Err(e) ==> (!(e is EmptyProperty) && (e matches ResolveError::AtomLookup {
            name: n,
            detail: _,
        } ==> n@ == name@) && (e matches ResolveError::Utf8Decode { name: n } ==> n@ == name@)),
{
    let atom = match intern_atom_call(conn, false, name) {
        Ok(a) => a,
        Err(d) => {
            return Err(ResolveError::AtomLookup { name: String::from_str(name), detail: d });
        },
    };
    let bytes = match get_property_bytes(conn, id, atom, PROP_WORD_BOUND) {
        Ok(b) => b,
        Err(d) => {
            return Err(ResolveError::PropertyFetch { detail: d });
        },
    };
    let ghost bv = bytes@;
    let r = decode_text_payload(name, bytes);
    proof {
        if valid_utf8(bv) {
            assert(decode_utf8(bv) == r->Ok_0@);
        }
    }
    r
}

/// Resolves `name` without creating it — a name the server does not know
/// fails atom resolution, and no property fetch is attempted for it — then
/// fetches the window's property and returns its first full 32-bit word.  An
/// error names the stage that failed and is never the decode case.
pub fn atom_prop(conn: &xcb::Connection, id: u32, name: &str) -> (r: Result<u32, ResolveError>)
    ensures
        r matches Err(e) ==> (!(e is Utf8Decode) && (e matches ResolveError::AtomLookup {
            name: n,
            detail: _,
        } ==> n@ == name@) && (e matches ResolveError::EmptyProperty { name: n, id: i } ==> (n@
            == name@ && i == id))),
{
    let raw = match intern_atom_call(conn, true, name) {
        Ok(a) => a,
        Err(d) => {
            return Err(ResolveError::AtomLookup { name: String::from_str(name), detail: d });
        },
    };
    let atom = match require_known_atom(name, raw) {
        Ok(a) => a,
        Err(e) => {
            return Err(e);
        },
    };
    let bytes = match get_property_bytes(conn, id, atom, PROP_WORD_BOUND) {
        Ok(b) => b,
        Err(d) => {
            return Err(ResolveError::PropertyFetch { detail: d });
        },
    };
    let words = payload_words(&bytes);
    first_property_word(name, id, &words)
}

} // verus!
