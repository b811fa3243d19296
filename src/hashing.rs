use vstd::prelude::*;
use vstd::utf8::encode_utf8;

use ring::digest::Context;

use crate::path_data::{opt_chars, string_views};
use crate::table::{opt_views, Table, TableRow};

verus! {

#[verifier::external_type_specification]
#[verifier::external_body]
pub struct ExContext(Context);

/// The SHA-256 digest of a byte sequence.
pub uninterp spec fn sha256_of(data: Seq<u8>) -> Seq<u8>;

/// The bytes fed so far to a digest context.
pub uninterp spec fn context_input(c: Context) -> Seq<u8>;

/// Relies on `ring::digest::Context::new` with `SHA256`: a fresh context has
/// been fed nothing.
#[verifier::external_body]
fn sha256_context() -> (c: Context)
    ensures
        context_input(c) == Seq::<u8>::empty(),
{
    Context::new(&ring::digest::SHA256)
}

/// Relies on `ring::digest::Context::update`: the bytes are appended to what
/// the context has been fed.
#[verifier::external_body]
fn context_update(c: &mut Context, data: &[u8])
    ensures
        context_input(*final(c)) == context_input(*old(c)) + data@,
{
    c.update(data);
}

/// Relies on `ring::digest::Context::finish` for SHA-256: the 32-byte digest
/// of all bytes fed. It panics when their number of bits does not fit in a
/// `u64`.
#[verifier::external_body]
fn context_finish(c: Context) -> (r: Vec<u8>)
    requires
        context_input(c).len() * 8 <= u64::MAX,
    ensures
        r@ == sha256_of(context_input(c)),
        r@.len() == 32,
{
    c.finish().as_ref().to_vec()
}

/// The lowercase hexadecimal digit of a value below 16.
pub open spec fn hex_digit(n: u8) -> char {
    seq!['0', '1', '2', '3', '4', '5', '6', '7', '8', '9', 'a', 'b', 'c', 'd', 'e', 'f'][n as int]
}

/// Each byte as two lowercase hexadecimal digits, high half first.
pub open spec fn hex_of(b: Seq<u8>) -> Seq<char>
    decreases b.len(),
{
    if b.len() == 0 {
        Seq::empty()
    } else {
        hex_of(b.drop_last()) + seq![hex_digit(b.last() / 16), hex_digit(b.last() % 16)]
    }
}

/// Relies on `hex::encode`: two lowercase hexadecimal digits per byte, high
/// half first.
#[verifier::external_body]
fn to_hex(b: &[u8]) -> (r: String)
    ensures
        r@ == hex_of(b@),
{
    hex::encode(b)
}

/// Why a digest could not be computed.
#[derive(Clone, Copy, PartialEq, Eq, Debug, Structural)]
pub enum HashError {
    /// More than 2^61 - 1 bytes were fed: their bit count overflows.
    InputTooLong,
}

/// Whether `n` bytes can be digested.
pub open spec fn digestible(n: int) -> bool {
    n * 8 <= u64::MAX
}

/// A streaming SHA-256 hasher: bytes are fed in pieces, and the digest of
/// all of them comes out as lowercase hexadecimal.
pub struct ContentHasher {
    ctx: Context,
    fed: u64,
}

impl ContentHasher {
    /// The bytes fed so far.
    pub closed spec fn input(&self) -> Seq<u8> {
        context_input(self.ctx)
    }

    /// The count of bytes fed is kept, saturating. `new` establishes it
    /// and `update` keeps it, so every hasher satisfies it.
    pub closed spec fn wf(&self) -> bool {
        self.fed as int == if self.input().len() > u64::MAX {
            u64::MAX as int
        } else {
            self.input().len() as int
        }
    }

    /// A hasher that has been fed nothing.
    pub fn new() -> (h: ContentHasher)
        ensures
            h.wf(),
            h.input() == Seq::<u8>::empty(),
    {
        ContentHasher { ctx: sha256_context(), fed: 0 }
    }

    /// Feeds the bytes of `data`.
    pub fn update(&mut self, data: &[u8])
        requires
            old(self).wf(),
        ensures
            final(self).wf(),
            final(self).input() == old(self).input() + data@,
    {
        context_update(&mut self.ctx, data);
        self.fed = self.fed.saturating_add(data.len() as u64);
    }

    /// The digest of everything fed, as lowercase hexadecimal.
    pub fn finish_hex(self) -> (r: Result<String, HashError>)
        requires
            self.wf(),
        ensures
            match r {
                Ok(s) => digestible(self.input().len() as int) && s@ == hex_of(sha256_of(self.input())),
                Err(e) => !digestible(self.input().len() as int) && e == HashError::InputTooLong,
            },
    {
        if self.fed > u64::MAX / 8 {
            return Err(HashError::InputTooLong);
        }
        let digest = context_finish(self.ctx);
        Ok(to_hex(digest.as_slice()))
    }
}

/// The UTF-8 bytes of a sequence of strings, one after the other.
pub open spec fn utf8_concat(items: Seq<Seq<char>>) -> Seq<u8>
    decreases items.len(),
{
    if items.len() == 0 {
        Seq::empty()
    } else {
        utf8_concat(items.drop_last()) + encode_utf8(items.last())
    }
}

/// The hexadecimal SHA-256 digest of a sequence of strings fed in order.
pub open spec fn digest_hex(items: Seq<Seq<char>>) -> Seq<char> {
    hex_of(sha256_of(utf8_concat(items)))
}

/// Feeds the strings' bytes in order through one SHA-256 context and returns
/// the digest as lowercase hexadecimal. The result depends on the order of
/// the strings: the same strings in another order may give another digest.
pub fn hash_iterable(items: &[String]) -> (r: Result<String, HashError>)
    ensures
        match r {
            Ok(s) => digestible(utf8_concat(string_views(items@)).len() as int) && s@ == digest_hex(
                string_views(items@),
            ),
            Err(e) => !digestible(utf8_concat(string_views(items@)).len() as int) && e
                == HashError::InputTooLong,
        },
{
    let mut h = ContentHasher::new();
    let mut i: usize = 0;
    while i < items.len()
        invariant
            i <= items@.len(),
            h.wf(),
            h.input() == utf8_concat(string_views(items@.take(i as int))),
        decreases items@.len() - i,
    {
        let bytes = items[i].as_str().as_bytes();
        h.update(bytes);
        proof {
            let pre = string_views(items@.take(i as int));
            let next = string_views(items@.take(i + 1));
            assert(next.drop_last() =~= pre);
            assert(next.last() == items@[i as int]@);
        }
        i = i + 1;
    }
    assert(items@.take(items@.len() as int) =~= items@);
    h.finish_hex()
}

/// The hashes present in `rows`, in row order.
pub open spec fn present_hashes(rows: Seq<TableRow>) -> Seq<Seq<char>> {
    rows.filter_map(|row: TableRow| row.hash)
}

/// One digest over the whole table: the `hash` column's present values, in
/// row order, fed to `hash_iterable`.
pub fn overall_hash(t: &Table) -> (r: Result<String, HashError>)
    ensures
        match r {
            Ok(s) => digestible(utf8_concat(present_hashes(t@)).len() as int) && s@ == digest_hex(
                present_hashes(t@),
            ),
            Err(e) => !digestible(utf8_concat(present_hashes(t@)).len() as int) && e
                == HashError::InputTooLong,
        },
{
    let column = t.hash_column();
    let ghost rows = t@;
    assert(opt_views(column@).len() == column@.len());
    let mut present: Vec<String> = Vec::new();
    let mut i: usize = 0;
    while i < column.len()
        invariant
            rows == t@,
            opt_views(column@) == rows.map_values(|row: TableRow| row.hash),
            column@.len() == rows.len(),
            i <= rows.len(),
            string_views(present@) == present_hashes(rows.take(i as int)),
        decreases rows.len() - i,
    {
        proof {
            rows.lemma_filter_map_take_succ(|row: TableRow| row.hash, i as int);
            assert(opt_views(column@)[i as int] == opt_chars(column@[i as int]));
        }
        let ghost before = present@;
        match &column[i] {
            Some(s) => {
                present.push(s.clone());
                assert(string_views(present@) =~= string_views(before) + seq![s@]);
            },
            None => {},
        }
        i = i + 1;
    }
    assert(rows.take(rows.len() as int) =~= rows);
    hash_iterable(present.as_slice())
}

/// Hashing is a function of the ordered input alone: equal sequences of
/// strings give equal digests.
pub proof fn lemma_hash_deterministic(a: Seq<Seq<char>>, b: Seq<Seq<char>>)
    requires
        a == b,
    ensures
        digest_hex(a) == digest_hex(b),
{
}

/// Feeding two sequences one after the other is feeding their bytes one
/// after the other: what is digested is the strings' bytes in sequence order.
pub proof fn lemma_utf8_concat_append(a: Seq<Seq<char>>, b: Seq<Seq<char>>)
    ensures
        utf8_concat(a + b) == utf8_concat(a) + utf8_concat(b),
    decreases b.len(),
{
    if b.len() == 0 {
        assert(a + b =~= a);
        assert(utf8_concat(a) + utf8_concat(b) =~= utf8_concat(a));
    } else {
        lemma_utf8_concat_append(a, b.drop_last());
        assert((a + b).drop_last() =~= a + b.drop_last());
        assert(utf8_concat(a) + utf8_concat(b) =~= utf8_concat(a) + utf8_concat(b.drop_last())
            + encode_utf8(b.last()));
    }
}

} // verus!
