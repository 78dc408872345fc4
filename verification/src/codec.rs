use vstd::prelude::*;

verus! {

#[verifier::external_type_specification]
#[verifier::external_body]
pub struct ExDecodeError(bincode::error::DecodeError);

/// The bytes that the binary codec writes for an unsigned 64-bit integer.
pub uninterp spec fn encoded_u64(v: u64) -> Seq<u8>;

/// What the binary codec reads from the front of `bytes` as an unsigned
/// 64-bit integer, `None` where it reports an error.
pub uninterp spec fn decoded_u64(bytes: Seq<u8>) -> Option<u64>;

/// The bytes that the binary codec writes for a string.
pub uninterp spec fn encoded_string(s: Seq<char>) -> Seq<u8>;

/// What the binary codec reads from the front of `bytes` as text, `None`
/// where it reports an error.
pub uninterp spec fn decoded_string(bytes: Seq<u8>) -> Option<Seq<char>>;

/// The bytes that the binary codec writes for an integer followed by a
/// string, which is also how it writes a record of those two fields: the
/// integer's bytes, then the string's.
pub open spec fn encoded_record(n: u64, s: Seq<char>) -> Seq<u8> {
    encoded_u64(n) + encoded_string(s)
}

/// What the binary codec reads from the front of `bytes` as an integer
/// followed by a string, `None` where it reports an error.
pub uninterp spec fn decoded_record(bytes: Seq<u8>) -> Option<(u64, Seq<char>)>;

/// Calls `bincode::encode_into_std_write` on an integer with the table
/// configuration (big endian, variable-length integers). Trusted: the call
/// appends the encoding to `buf`, leaves what was there in place, and returns
/// the number of bytes appended; the decoder reads the appended bytes back
/// as the same integer. Writing into a `Vec` cannot fail.
#[verifier::external_body]
fn encode_u64(v: u64, buf: &mut Vec<u8>) -> (n: usize)
    ensures
        final(buf)@ == old(buf)@ + encoded_u64(v),
        n == encoded_u64(v).len(),
        decoded_u64(final(buf)@.skip(old(buf)@.len() as int)) == Some(v),
{
    let config = bincode::config::standard().with_big_endian().with_variable_int_encoding();
    bincode::encode_into_std_write(v, buf, config).expect("encoding can't fail")
}

/// Calls `bincode::decode_from_slice` for an integer with the table
/// configuration. Trusted: the outcome is a function of the bytes alone.
#[verifier::external_body]
fn decode_u64(bytes: &[u8]) -> (r: Result<u64, bincode::error::DecodeError>)
    ensures
        match r {
            Ok(v) => decoded_u64(bytes@) == Some(v),
            Err(_) => decoded_u64(bytes@) is None,
        },
{
    let config = bincode::config::standard().with_big_endian().with_variable_int_encoding();
    bincode::decode_from_slice(bytes, config).map(|v| v.0)
}

/// Calls `bincode::encode_into_std_write` on a string with the table
/// configuration. Trusted: the call appends the encoding to `buf`, leaves
/// what was there in place, and returns the number of bytes appended; the
/// decoder reads the appended bytes back as the same text.
#[verifier::external_body]
fn encode_string(s: &String, buf: &mut Vec<u8>) -> (n: usize)
    ensures
        final(buf)@ == old(buf)@ + encoded_string(s@),
        n == encoded_string(s@).len(),
        decoded_string(final(buf)@.skip(old(buf)@.len() as int)) == Some(s@),
{
    let config = bincode::config::standard().with_big_endian().with_variable_int_encoding();
    bincode::encode_into_std_write(s, buf, config).expect("encoding can't fail")
}

/// Calls `bincode::borrow_decode_from_slice` for a string slice with the
/// table configuration and copies the text out. That path checks the
/// claimed length against the bytes at hand before it takes them, so no
/// input makes it allocate or panic. Trusted: the outcome is a function of
/// the bytes alone.
#[verifier::external_body]
fn decode_string(bytes: &[u8]) -> (r: Result<String, bincode::error::DecodeError>)
    ensures
        match r {
            Ok(s) => decoded_string(bytes@) == Some(s@),
            Err(_) => decoded_string(bytes@) is None,
        },
{
    let config = bincode::config::standard().with_big_endian().with_variable_int_encoding();
    bincode::borrow_decode_from_slice::<&str, _>(bytes, config).map(|v| v.0.to_owned())
}

/// Calls `bincode::encode_into_std_write` on a pair of an integer and a
/// string with the table configuration. Trusted: the call appends the
/// integer's encoding and then the string's to `buf`, leaves what was there
/// in place, and returns the number of bytes appended; the decoder reads the
/// appended bytes back as the same pair.
#[verifier::external_body]
fn encode_record(pair: &(u64, String), buf: &mut Vec<u8>) -> (n: usize)
    ensures
        final(buf)@ == old(buf)@ + encoded_record(pair.0, pair.1@),
        n == encoded_record(pair.0, pair.1@).len(),
        decoded_record(final(buf)@.skip(old(buf)@.len() as int)) == Some((pair.0, pair.1@)),
{
    let config = bincode::config::standard().with_big_endian().with_variable_int_encoding();
    bincode::encode_into_std_write(pair, buf, config).expect("encoding can't fail")
}

/// Calls `bincode::borrow_decode_from_slice` for a pair of an integer and
/// a string slice with the table configuration and copies the text out.
/// That path checks the claimed length against the bytes at hand, so no
/// input makes it allocate or panic. Trusted: the outcome is a function of
/// the bytes alone.
#[verifier::external_body]
fn decode_record(bytes: &[u8]) -> (r: Result<(u64, String), bincode::error::DecodeError>)
    ensures
        match r {
            Ok(pair) => decoded_record(bytes@) == Some((pair.0, pair.1@)),
            Err(_) => decoded_record(bytes@) is None,
        },
{
    let config = bincode::config::standard().with_big_endian().with_variable_int_encoding();
    bincode::borrow_decode_from_slice::<(u64, &str), _>(bytes, config).map(|v| (v.0.0, v.0.1.to_owned()))
}

/// A type with a deterministic binary encoding.
///
/// `encoding` is the byte string written for a value. `decodable` says
/// whether a byte string can be read back, and `is_decoding` relates a byte
/// string to the values that reading it may yield. The codec reads back
/// what it wrote: every call of `encode_into` establishes it for its value.
/// Two values read from the same bytes are the same to the codec: they have
/// one encoding.
pub trait Codec: Sized {
    spec fn encoding(&self) -> Seq<u8>;

    spec fn decodable(bytes: Seq<u8>) -> bool;

    spec fn is_decoding(bytes: Seq<u8>, v: &Self) -> bool;

    /// Appends the encoding of `self` to `buf` and returns its length.
    /// What was written decodes, and `self` is a decoding of it.
    fn encode_into(&self, buf: &mut Vec<u8>) -> (n: usize)
        ensures
            final(buf)@ == old(buf)@ + self.encoding(),
            n == self.encoding().len(),
            Self::decodable(self.encoding()),
            Self::is_decoding(self.encoding(), self),
    ;

    /// Two decodings of the same bytes have the same encoding.
    proof fn lemma_decodings_agree(bytes: Seq<u8>, a: &Self, b: &Self)
        requires
            Self::is_decoding(bytes, a),
            Self::is_decoding(bytes, b),
        ensures
            a.encoding() == b.encoding(),
    ;

    /// Reads a value from `bytes`; fails exactly on bytes that are not
    /// decodable.
    fn decode_from(bytes: &[u8]) -> (r: Result<Self, bincode::error::DecodeError>)
        ensures
            match r {
                Ok(v) => Self::decodable(bytes@) && Self::is_decoding(bytes@, &v),
                Err(_) => !Self::decodable(bytes@),
            },
    ;
}

impl Codec for u64 {
    open spec fn encoding(&self) -> Seq<u8> {
        encoded_u64(*self)
    }

    open spec fn decodable(bytes: Seq<u8>) -> bool {
        decoded_u64(bytes) is Some
    }

    open spec fn is_decoding(bytes: Seq<u8>, v: &Self) -> bool {
        decoded_u64(bytes) == Some(*v)
    }

    fn encode_into(&self, buf: &mut Vec<u8>) -> (n: usize) {
        let ghost before = buf@;
        let n = encode_u64(*self, buf);
        assert(buf@.skip(before.len() as int) =~= encoded_u64(*self));
        n
    }

    proof fn lemma_decodings_agree(bytes: Seq<u8>, a: &Self, b: &Self) {
    }

    fn decode_from(bytes: &[u8]) -> (r: Result<Self, bincode::error::DecodeError>) {
        decode_u64(bytes)
    }
}

impl Codec for String {
    open spec fn encoding(&self) -> Seq<u8> {
        encoded_string(self@)
    }

    open spec fn decodable(bytes: Seq<u8>) -> bool {
        decoded_string(bytes) is Some
    }

    open spec fn is_decoding(bytes: Seq<u8>, v: &Self) -> bool {
        decoded_string(bytes) == Some(v@)
    }

    fn encode_into(&self, buf: &mut Vec<u8>) -> (n: usize) {
        let ghost before = buf@;
        let n = encode_string(self, buf);
        assert(buf@.skip(before.len() as int) =~= encoded_string(self@));
        n
    }

    proof fn lemma_decodings_agree(bytes: Seq<u8>, a: &Self, b: &Self) {
    }

    fn decode_from(bytes: &[u8]) -> (r: Result<Self, bincode::error::DecodeError>) {
        decode_string(bytes)
    }
}

/// A record of an integer and a string, encoded field after field.
impl Codec for (u64, String) {
    open spec fn encoding(&self) -> Seq<u8> {
        encoded_record(self.0, self.1@)
    }

    open spec fn decodable(bytes: Seq<u8>) -> bool {
        decoded_record(bytes) is Some
    }

    open spec fn is_decoding(bytes: Seq<u8>, v: &Self) -> bool {
        decoded_record(bytes) == Some((v.0, v.1@))
    }

    fn encode_into(&self, buf: &mut Vec<u8>) -> (n: usize) {
        let ghost before = buf@;
        let n = encode_record(self, buf);
        assert(buf@.skip(before.len() as int) =~= encoded_record(self.0, self.1@));
        n
    }

    proof fn lemma_decodings_agree(bytes: Seq<u8>, a: &Self, b: &Self) {
    }

    fn decode_from(bytes: &[u8]) -> (r: Result<Self, bincode::error::DecodeError>) {
        decode_record(bytes)
    }
}

/// The codec reads back what it wrote for `v`.
pub open spec fn round_trips<T: Codec>(v: &T) -> bool {
    T::decodable(v.encoding()) && T::is_decoding(v.encoding(), v)
}

} // verus!
