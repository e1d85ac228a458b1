//! The content digest: SHA-256 of the bytes, written as upper-case hexadecimal.
use sha2::Digest;
use vstd::prelude::*;
use vstd::slice::slice_subrange;
use vstd::string::*;

use crate::text::digit_char;

verus! {

/// How many bytes `sha256_digest` hands to the hash at a time.
pub const CHUNK_SIZE: usize = 1024;

/// A SHA-256 computation in progress: a `sha2::Sha256`, of which the verifier
/// sees nothing but what `absorbed` says.
#[verifier::external_body]
pub struct Sha256State {
    inner: sha2::Sha256,
}

/// The bytes that a computation has taken in so far, in their order.
pub uninterp spec fn absorbed(state: Sha256State) -> Seq<u8>;

/// The SHA-256 hash of `data`.
pub uninterp spec fn sha256(data: Seq<u8>) -> Seq<u8>;

/// `sha2::Digest::new` for `sha2::Sha256`. Trusted: the new computation has
/// taken in nothing.
#[verifier::external_body]
fn start() -> (state: Sha256State)
    ensures
        absorbed(state) == Seq::<u8>::empty(),
{
    Sha256State { inner: sha2::Sha256::new() }
}

/// `sha2::Digest::update` for `sha2::Sha256`. Trusted: the computation takes
/// in `data` after what it has already taken in, and nothing else changes.
#[verifier::external_body]
fn absorb(state: &mut Sha256State, data: &[u8])
    ensures
        absorbed(*final(state)) == absorbed(*old(state)) + data@,
{
    state.inner.update(data);
}

/// `sha2::Digest::finalize` for `sha2::Sha256`. Trusted: the result is the
/// SHA-256 hash of all that the computation took in, which is 32 bytes long.
#[verifier::external_body]
fn finish(state: Sha256State) -> (hash: Vec<u8>)
    ensures
        hash@ == sha256(absorbed(state)),
        hash@.len() == 32,
{
    state.inner.finalize().to_vec()
}

/// The upper-case hexadecimal digit for `n`.
pub open spec fn hex_digit(n: nat) -> char {
    if n < 10 {
        digit_char(n)
    } else if n == 10 {
        'A'
    } else if n == 11 {
        'B'
    } else if n == 12 {
        'C'
    } else if n == 13 {
        'D'
    } else if n == 14 {
        'E'
    } else {
        'F'
    }
}

/// The bytes in upper-case hexadecimal, two digits for each byte.
pub open spec fn hex_upper(bytes: Seq<u8>) -> Seq<char> {
    Seq::new(
        2 * bytes.len(),
        |i: int|
            if i % 2 == 0 {
                hex_digit((bytes[i / 2] / 16) as nat)
            } else {
                hex_digit((bytes[i / 2] % 16) as nat)
            },
    )
}

/// The digest of a file that holds `data`.
pub open spec fn digest_of(data: Seq<u8>) -> Seq<char> {
    hex_upper(sha256(data))
}

fn hex_digit_str(n: u8) -> (r: &'static str)
    requires
        n < 16,
    ensures
        r@ == seq![hex_digit(n as nat)],
{
    proof {
        reveal_strlit("0");
        reveal_strlit("1");
        reveal_strlit("2");
        reveal_strlit("3");
        reveal_strlit("4");
        reveal_strlit("5");
        reveal_strlit("6");
        reveal_strlit("7");
        reveal_strlit("8");
        reveal_strlit("9");
        reveal_strlit("A");
        reveal_strlit("B");
        reveal_strlit("C");
        reveal_strlit("D");
        reveal_strlit("E");
        reveal_strlit("F");
    }
    let r = if n == 0 {
        "0"
    } else if n == 1 {
        "1"
    } else if n == 2 {
        "2"
    } else if n == 3 {
        "3"
    } else if n == 4 {
        "4"
    } else if n == 5 {
        "5"
    } else if n == 6 {
        "6"
    } else if n == 7 {
        "7"
    } else if n == 8 {
        "8"
    } else if n == 9 {
        "9"
    } else if n == 10 {
        "A"
    } else if n == 11 {
        "B"
    } else if n == 12 {
        "C"
    } else if n == 13 {
        "D"
    } else if n == 14 {
        "E"
    } else {
        "F"
    };
    assert(r@ =~= seq![hex_digit(n as nat)]);
    r
}

/// Writes `bytes` in upper-case hexadecimal.
pub fn to_hex_upper(bytes: &[u8]) -> (r: String)
    ensures
        r@ == hex_upper(bytes@),
{
    let mut out = String::new();
    let mut i: usize = 0;
    assert(out@ =~= hex_upper(bytes@.take(0)));
    while i < bytes.len()
        invariant
            i <= bytes.len(),
            out@ == hex_upper(bytes@.take(i as int)),
        decreases bytes.len() - i,
    {
        let byte = bytes[i];
        let ghost earlier = out@;
        out.append(hex_digit_str(byte / 16));
        out.append(hex_digit_str(byte % 16));
        proof {
            let upto = bytes@.take(i + 1);
            assert(out@ == earlier + seq![hex_digit((byte / 16) as nat)] + seq![
                hex_digit((byte % 16) as nat),
            ]);
            assert forall|k: int| 0 <= k < 2 * upto.len() implies out@[k] == hex_upper(upto)[k] by {
                if k < 2 * i {
                    assert(bytes@.take(i as int)[k / 2] == upto[k / 2]);
                    assert(out@[k] == hex_upper(bytes@.take(i as int))[k]);
                } else {
                    assert(upto[k / 2] == byte);
                }
            }
            assert(out@ =~= hex_upper(upto));
        }
        i += 1;
    }
    assert(bytes@.take(bytes.len() as int) =~= bytes@);
    out
}

/// A digest that is computed piece by piece, as a file is read.
pub struct DigestStream {
    state: Sha256State,
}

impl DigestStream {
    /// The bytes handed in so far, in their order.
    pub closed spec fn bytes(&self) -> Seq<u8> {
        absorbed(self.state)
    }

    /// A stream that has been handed nothing.
    pub fn new() -> (r: DigestStream)
        ensures
            r.bytes() == Seq::<u8>::empty(),
    {
        DigestStream { state: start() }
    }

    /// Hands in the next piece of the file.
    pub fn update(&mut self, chunk: &[u8])
        ensures
            final(self).bytes() == old(self).bytes() + chunk@,
    {
        absorb(&mut self.state, chunk);
    }

    /// The digest of all the bytes handed in, however they were cut into pieces.
    pub fn finish(self) -> (r: String)
        ensures
            r@ == digest_of(self.bytes()),
            r@.len() == 64,
    {
        let hash = finish(self.state);
        to_hex_upper(hash.as_slice())
    }
}

/// The digest of `data`: its SHA-256 hash in upper-case hexadecimal, computed
/// over pieces of `CHUNK_SIZE` bytes.
pub fn sha256_digest(data: &[u8]) -> (r: String)
    ensures
        r@ == digest_of(data@),
        r@.len() == 64,
{
    let mut stream = DigestStream::new();
    let mut offset: usize = 0;
    assert(data@.take(0) =~= Seq::<u8>::empty());
    while offset < data.len()
        invariant
            offset <= data.len(),
            stream.bytes() == data@.take(offset as int),
        decreases data.len() - offset,
    {
        let end = if data.len() - offset > CHUNK_SIZE {
            offset + CHUNK_SIZE
        } else {
            data.len()
        };
        let chunk = slice_subrange(data, offset, end);
        stream.update(chunk);
        assert(data@.take(end as int) =~= data@.take(offset as int) + chunk@);
        offset = end;
    }
    assert(data@.take(data.len() as int) =~= data@);
    stream.finish()
}

} // verus!
