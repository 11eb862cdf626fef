//! Everything this library takes on trust: functions of the standard library
//! and of `blake3`, with what is claimed of them.
use crate::paths;
use crate::paths::Component;
use vstd::prelude::*;
use vstd::utf8::*;

verus! {

/// `String::push` appends one character.
pub assume_specification[ String::push ](s: &mut String, c: char)
    ensures
        final(s)@ == old(s)@.push(c),
;

/// What `String::from_utf8_lossy` makes of a run of bytes.
pub uninterp spec fn utf8_lossy(bytes: Seq<u8>) -> Seq<char>;

/// `String::from_utf8_lossy`: valid UTF-8 is decoded as it stands. What becomes
/// of anything else (replacement characters) has a name and is not spelled out.
#[verifier::external_body]
pub(crate) fn decode_lossy(bytes: &[u8]) -> (r: String)
    ensures
        r@ == utf8_lossy(bytes@),
        valid_utf8(bytes@) ==> r@ == decode_utf8(bytes@),
{
    String::from_utf8_lossy(bytes).into_owned()
}

/// What `str::to_lowercase` makes of a text.
pub uninterp spec fn lowercase(s: Seq<char>) -> Seq<char>;

/// The lower case of an ASCII character; any other character is left alone.
pub open spec fn ascii_lower(c: char) -> char {
    if 'A' <= c <= 'Z' {
        ((c as u32 + 32) as u32) as char
    } else {
        c
    }
}

/// `str::to_lowercase`: on ASCII text, `A` to `Z` become `a` to `z` and nothing
/// else changes. The Unicode mapping beyond that has a name and is not spelled out.
#[verifier::external_body]
pub(crate) fn to_lowercase(s: &str) -> (r: String)
    ensures
        r@ == lowercase(s@),
        is_ascii_chars(s@) ==> r@ == s@.map_values(|c: char| ascii_lower(c)),
{
    s.to_lowercase()
}

/// What `format!("{:?}", s)` makes of a text.
pub uninterp spec fn debug_quoted(s: Seq<char>) -> Seq<char>;

/// The `Debug` form of a text: in double quotes, special characters escaped.
/// Which characters are escaped, and how, has a name and is not spelled out.
#[verifier::external_body]
pub(crate) fn quote_debug(s: &str) -> (r: String)
    ensures
        r@ == debug_quoted(s@),
{
    format!("{:?}", s)
}

/// `std::path::Path::components`: slashes separate components, repeated and trailing ones
/// make no difference, `..` is a component of its own, `.` counts at most at the start, and
/// a leading slash gives a root or a prefix. Every other run of characters between
/// separators is a plain name. On some systems a backslash separates too, and the name can
/// have a prefix: a letter and a colon, or one that starts with two separators; a name with
/// a prefix has a component that is no plain name. So the plain names of a path are the
/// parts between its slashes, or those between its slashes and backslashes. Which of the
/// two, and whether there is a prefix, depends on the system and is left open where the
/// name holds a backslash or its second character is a colon.
#[verifier::external_body]
pub(crate) fn components_of(filename: &str) -> (r: Vec<Component>)
    ensures
        paths::is_absolute(filename@) ==> paths::plain_names(r@) is None,
        paths::name_parts(filename@).contains(".."@) ==> paths::plain_names(r@) is None,
        paths::reads_alike(filename@) && !paths::is_absolute(filename@) && !paths::name_parts(filename@).contains(".."@) ==> paths::plain_names(r@) == Some(
            paths::name_parts(filename@),
        ),
        paths::plain_names(r@) matches Some(ps) ==> paths::possible_names(filename@, ps),
{
    std::path::Path::new(filename)
        .components()
        .map(|c| match c {
            std::path::Component::Prefix(_) => Component::Prefix,
            std::path::Component::RootDir => Component::RootDir,
            std::path::Component::CurDir => Component::CurDir,
            std::path::Component::ParentDir => Component::ParentDir,
            std::path::Component::Normal(s) => Component::Normal(s.to_string_lossy().into_owned()),
        })
        .collect()
}

/// The bytes that a hasher has been fed since it was made.
pub uninterp spec fn absorbed(h: blake3::Hasher) -> Seq<u8>;

/// The BLAKE3 hash of a run of bytes, as `Hash::to_hex` writes it.
pub uninterp spec fn blake3_hex(bytes: Seq<u8>) -> Seq<char>;

/// `blake3::Hasher`, the state of an incremental hash.
#[verifier::external_type_specification]
#[verifier::external_body]
pub struct ExHasher(blake3::Hasher);

/// Whether `c` is a digit of lower-case hexadecimal notation.
pub open spec fn is_lower_hex(c: char) -> bool {
    '0' <= c <= '9' || 'a' <= c <= 'f'
}

/// An incremental BLAKE3 hash in its plain mode (no key, no offset): `new` is
/// the only way to make one.
pub struct TransferHash {
    pub(crate) hasher: blake3::Hasher,
}

impl View for TransferHash {
    type V = Seq<u8>;

    /// The bytes fed so far.
    closed spec fn view(&self) -> Seq<u8> {
        absorbed(self.hasher)
    }
}

impl TransferHash {
    /// `blake3::Hasher::new`: nothing has been fed yet.
    #[verifier::external_body]
    pub(crate) fn new() -> (r: TransferHash)
        ensures
            r@ == Seq::<u8>::empty(),
            absorbed(r.hasher) == r@,
    {
        TransferHash { hasher: blake3::Hasher::new() }
    }

    /// `blake3::Hasher::update`: the bytes are fed after those already there.
    #[verifier::external_body]
    pub(crate) fn update(&mut self, bytes: &[u8])
        ensures
            final(self)@ == old(self)@ + bytes@,
            absorbed(final(self).hasher) == final(self)@,
    {
        self.hasher.update(bytes);
    }

    /// `blake3::Hasher::finalize` and `blake3::Hash::to_hex`: the hash of all
    /// bytes fed so far, as 64 lower-case hexadecimal digits.
    #[verifier::external_body]
    pub(crate) fn hex(&self) -> (r: String)
        ensures
            r@ == blake3_hex(self@),
            r@.len() == 64,
            forall|i: int| 0 <= i < 64 ==> is_lower_hex(#[trigger] r@[i]),
    {
        self.hasher.finalize().to_hex().to_string()
    }
}

} // verus!
