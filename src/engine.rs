//! The interpolation backend that a conversion runs on.
use vstd::prelude::*;
use vstd::utf8::{encode_utf8, encode_utf8_decode_utf8, is_ascii_chars, is_ascii_chars_encode_utf8};

verus! {

/// A sinc interpolator implementation that the rate converter can drive.
#[derive(Clone, Copy, Debug, PartialEq, Eq, Structural)]
pub enum Engine {
    Dasp,
    Sampara,
}

/// The name that selects `Engine::Dasp`.
pub open spec fn dasp_name() -> Seq<char> {
    seq!['d', 'a', 's', 'p']
}

/// The name that selects `Engine::Sampara`.
pub open spec fn sampara_name() -> Seq<char> {
    seq!['s', 'a', 'm', 'p', 'a', 'r', 'a']
}

/// The engine that a name selects, if any.
pub open spec fn engine_named(name: Seq<char>) -> Option<Engine> {
    if name == dasp_name() {
        Some(Engine::Dasp)
    } else if name == sampara_name() {
        Some(Engine::Sampara)
    } else {
        None
    }
}

/// Whether two byte slices hold the same bytes.
fn same_bytes(a: &[u8], b: &[u8]) -> (r: bool)
    ensures
        r == (a@ == b@),
{
    if a.len() != b.len() {
        return false;
    }
    let mut i: usize = 0;
    while i < a.len()
        invariant
            a@.len() == b@.len(),
            0 <= i <= a@.len(),
            forall|k: int| 0 <= k < i ==> a@[k] == b@[k],
        decreases a@.len() - i,
    {
        if a[i] != b[i] {
            return false;
        }
        i = i + 1;
    }
    assert(a@ =~= b@);
    true
}

/// A string's characters are those of an ASCII name exactly when its UTF-8
/// bytes are the name's characters, byte for byte.
proof fn lemma_ascii_name(s: Seq<char>, name: Seq<char>)
    requires
        is_ascii_chars(name),
    ensures
        (s == name) <==> (encode_utf8(s) == encode_utf8(name)),
{
    encode_utf8_decode_utf8(s);
    encode_utf8_decode_utf8(name);
}

impl Engine {
    /// Selects an engine by its name: "dasp" or "sampara".
    pub fn from_str(s: &str) -> (r: Result<Engine, &'static str>)
        ensures
            engine_named(s@) matches Some(e) ==> r == Ok::<Engine, &'static str>(e),
            engine_named(s@) is None ==> (r matches Err(m) && m@ == "unknown engine"@),
    {
        let dasp: [u8; 4] = [100, 97, 115, 112];
        let sampara: [u8; 7] = [115, 97, 109, 112, 97, 114, 97];
        proof {
            is_ascii_chars_encode_utf8(dasp_name());
            is_ascii_chars_encode_utf8(sampara_name());
            lemma_ascii_name(s@, dasp_name());
            lemma_ascii_name(s@, sampara_name());
            assert(encode_utf8(dasp_name()) =~= dasp@);
            assert(encode_utf8(sampara_name()) =~= sampara@);
        }
        let bytes = s.as_bytes();
        if same_bytes(bytes, dasp.as_slice()) {
            Ok(Engine::Dasp)
        } else if same_bytes(bytes, sampara.as_slice()) {
            Ok(Engine::Sampara)
        } else {
            Err("unknown engine")
        }
    }
}

} // verus!
