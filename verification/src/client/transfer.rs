//! Whole-file framing and share links on the client side.
use vstd::prelude::*;
use crate::link::{decode_secret, share_link};
use crate::primitives::{b64url_text, is_b64url_char};
use crate::text::{chars_of, find_char, lemma_find_char_from, position_of, string_of, trim_end_char};
use crate::wire::{cipher_records, plain_records, CHUNK_CIPHERTEXT_SIZE, CHUNK_SIZE, SECRET_LEN, TAG_LEN};
use crate::primitives::{aes256gcm_opened, aes256gcm_sealed};
use crate::stream::{cipher_record_count, nonce_layout, plain_record_count, record_index};
use crate::client::crypto::FileKeys;
use crate::wire::NONCE_PREFIX_LEN;
use crate::text::{decimal, push_decimal};

verus! {

broadcast use vstd::string::group_string_axioms;

/// The last position of `c` in `s`.
pub open spec fn last_index_of(s: Seq<char>, c: char) -> Option<int>
    decreases s.len(),
{
    if s.len() == 0 {
        None
    } else if s.last() == c {
        Some(s.len() - 1)
    } else {
        last_index_of(s.drop_last(), c)
    }
}

/// What follows the last `c` of `s`; all of `s` when it has none.
pub open spec fn after_last(s: Seq<char>, c: char) -> Seq<char> {
    match last_index_of(s, c) {
        Some(i) => s.subrange(i + 1, s.len() as int),
        None => s,
    }
}

/// Why a share link could not be read.
#[derive(Debug, Clone, Copy, PartialEq, Eq, Structural)]
pub enum LinkError {
    /// There is no `#` before which the id and after which the secret sit.
    NoFragment,
    /// The fragment is not the base64url of a `SECRET_LEN`-byte secret.
    BadSecret,
    /// Nothing follows the last `/` before the `#`.
    NoId,
}

impl LinkError {
    /// The message shown for the failure.
    pub fn message(self) -> (m: &'static str)
        ensures
            self is NoFragment ==> m@ == "the link is missing the secret after '#'"@,
            self is BadSecret ==> m@ == "the secret is missing, malformed, or the wrong length"@,
            self is NoId ==> m@ == "the link is missing a share id"@,
    {
        match self {
            LinkError::NoFragment => "the link is missing the secret after '#'",
            LinkError::BadSecret => "the secret is missing, malformed, or the wrong length",
            LinkError::NoId => "the link is missing a share id",
        }
    }
}

/// What a link reads as: the share id after the last `/` before the first
/// `#`, and the secret the fragment after it encodes.
pub open spec fn link_parts(link: Seq<char>) -> Result<(Seq<char>, Seq<u8>), LinkError> {
    match find_char(link, '#') {
        None => Err(LinkError::NoFragment),
        Some(h) => {
            let fragment = link.subrange(h + 1, link.len() as int);
            if !(exists|b: Seq<u8>| b.len() == SECRET_LEN && #[trigger] b64url_text(b) == fragment) {
                Err(LinkError::BadSecret)
            } else {
                let id = after_last(link.subrange(0, h), '/');
                if id.len() == 0 {
                    Err(LinkError::NoId)
                } else {
                    Ok((id, choose|b: Seq<u8>| b.len() == SECRET_LEN && #[trigger] b64url_text(b) == fragment))
                }
            }
        },
    }
}

/// Pull the share id and secret out of a link, in either the full
/// `<origin>/d/<id>#<secret>` form or the bare `<id>#<secret>` form.
pub fn parse_link(link: &str) -> (parsed: Result<(String, Vec<u8>), LinkError>)
    ensures
        parsed matches Ok((id, secret)) ==> link_parts(link@) == Ok::<(Seq<char>, Seq<u8>), LinkError>((id@, secret@)),
        parsed matches Err(e) ==> link_parts(link@) == Err::<(Seq<char>, Seq<u8>), LinkError>(e),
{
    let v = chars_of(link);
    let h = match position_of(v.as_slice(), '#') {
        Some(h) => h,
        None => return Err(LinkError::NoFragment),
    };
    proof { lemma_find_char_from(v@, '#', 0); }
    let fragment = string_of(&v.as_slice()[h + 1..v.len()]);
    let secret = match decode_secret(fragment.as_str()) {
        Some(s) => s,
        None => return Err(LinkError::BadSecret),
    };
    let before = &v.as_slice()[0..h];
    let mut i: usize = before.len();
    assert(before@.subrange(0, i as int) =~= before@);
    while i > 0 && before[i - 1] != '/'
        invariant
            i <= before@.len(),
            last_index_of(before@.subrange(0, i as int), '/') == last_index_of(before@, '/'),
        decreases i,
    {
        assert(before@.subrange(0, i as int).drop_last() =~= before@.subrange(0, i - 1));
        i -= 1;
    }
    proof {
        if i > 0 {
            assert(before@.subrange(0, i as int).last() == '/');
        }
    }
    if i == before.len() {
        return Err(LinkError::NoId);
    }
    let id = string_of(&before[i..before.len()]);
    proof {
        let w = choose|b: Seq<u8>| b.len() == SECRET_LEN && #[trigger] b64url_text(b) == fragment@;
        crate::b64::lemma_text_injective(w, secret@);
    }
    Ok((id, secret))
}

/// A share link reads back as the id and secret it was built from, for an
/// id with no `/` or `#` in it at an origin with no `#`.
pub proof fn lemma_link_round_trip(origin: Seq<char>, id: Seq<char>, secret: Seq<u8>)
    requires
        secret.len() == SECRET_LEN,
        id.len() > 0,
        !id.contains('/'),
        !id.contains('#'),
        !origin.contains('#'),
    ensures
        link_parts(share_link(origin, id, secret)) == Ok::<(Seq<char>, Seq<u8>), LinkError>((id, secret)),
{
    reveal_strlit("/d/");
    reveal_strlit("#");
    let base = trim_end_char(origin, '/');
    let before = base + "/d/"@ + id;
    let link = share_link(origin, id, secret);
    let frag = b64url_text(secret);
    assert(link =~= before + seq!['#'] + frag);
    lemma_trim_keeps_out(origin, '/', '#');
    lemma_find_char_from(link, '#', 0);
    let h = before.len() as int;
    assert(link[h] == '#');
    match find_char(link, '#') {
        Some(k) => {
            if k < h {
                assert(link[k] == before[k]);
                if k < base.len() {
                    assert(before[k] == base[k]);
                } else if k < base.len() + 3 {
                    assert(before[k] == "/d/"@[k - base.len()]);
                } else {
                    assert(before[k] == id[k - base.len() - 3]);
                }
            }
        },
        None => {},
    }
    assert(link.subrange(0, h) =~= before);
    assert(link.subrange(h + 1, link.len() as int) =~= frag);
    lemma_after_last_suffix(base + "/d"@, id);
    assert(before =~= (base + "/d"@) + seq!['/'] + id) by {
        reveal_strlit("/d");
    }
    let w = choose|b: Seq<u8>| b.len() == SECRET_LEN && #[trigger] b64url_text(b) == frag;
    crate::b64::lemma_text_injective(w, secret);
}

/// Trimming trailing characters never brings in one that was not there.
proof fn lemma_trim_keeps_out(s: Seq<char>, c: char, absent: char)
    requires
        !s.contains(absent),
    ensures
        !trim_end_char(s, c).contains(absent),
        trim_end_char(s, c).len() <= s.len(),
        forall|i: int| 0 <= i < trim_end_char(s, c).len() ==> trim_end_char(s, c)[i] == s[i],
    decreases s.len(),
{
    if s.len() > 0 && s.last() == c {
        lemma_trim_keeps_out(s.drop_last(), c, absent);
        assert forall|x: char| s.drop_last().contains(x) implies s.contains(x) by {
            let i = choose|i: int| 0 <= i < s.drop_last().len() && s.drop_last()[i] == x;
            assert(s[i] == x);
        }
        let t = trim_end_char(s, c);
        assert forall|i: int| 0 <= i < t.len() implies t[i] == s[i] by {
            assert(t[i] == s.drop_last()[i]);
        }
    }
}

/// After the last `/` of `head + "/" + tail`, with no `/` in `tail`, comes
/// exactly `tail`.
proof fn lemma_after_last_suffix(head: Seq<char>, tail: Seq<char>)
    requires
        !tail.contains('/'),
    ensures
        after_last(head + seq!['/'] + tail, '/') == tail,
    decreases tail.len(),
{
    let s = head + seq!['/'] + tail;
    if tail.len() == 0 {
        assert(s.last() == '/');
        assert(s.subrange(s.len() as int, s.len() as int) =~= tail);
    } else {
        assert(s.last() == tail.last());
        assert(tail.contains(tail.last()));
        assert(s.drop_last() =~= head + seq!['/'] + tail.drop_last());
        assert(!tail.drop_last().contains('/')) by {
            if tail.drop_last().contains('/') {
                let i = choose|i: int| 0 <= i < tail.drop_last().len() && tail.drop_last()[i] == '/';
                assert(tail[i] == '/');
            }
        }
        lemma_after_last_suffix(head, tail.drop_last());
        lemma_last_index_shift(head, tail);
    }
}

/// The last `/` of `head + "/" + tail`, with no `/` in `tail`, sits just
/// before `tail`.
proof fn lemma_last_index_shift(head: Seq<char>, tail: Seq<char>)
    requires
        !tail.contains('/'),
    ensures
        last_index_of(head + seq!['/'] + tail, '/') == Some(head.len() as int),
    decreases tail.len(),
{
    let s = head + seq!['/'] + tail;
    if tail.len() == 0 {
        assert(s.last() == '/');
    } else {
        assert(s.last() == tail.last());
        assert(tail.contains(tail.last()));
        assert(s.drop_last() =~= head + seq!['/'] + tail.drop_last());
        assert(!tail.drop_last().contains('/')) by {
            if tail.drop_last().contains('/') {
                let i = choose|i: int| 0 <= i < tail.drop_last().len() && tail.drop_last()[i] == '/';
                assert(tail[i] == '/');
            }
        }
        lemma_last_index_shift(head, tail.drop_last());
    }
}

/// The pieces of `parts` one after another.
pub open spec fn concat(parts: Seq<Seq<u8>>) -> Seq<u8>
    decreases parts.len(),
{
    if parts.len() == 0 {
        Seq::empty()
    } else {
        concat(parts.drop_last()) + parts.last()
    }
}

/// The `i`-th full-length ciphertext record of `cipher`.
pub open spec fn record_at(cipher: Seq<u8>, i: int) -> Seq<u8> {
    cipher.subrange(i * CHUNK_CIPHERTEXT_SIZE, (i + 1) * CHUNK_CIPHERTEXT_SIZE)
}

/// Why a streamed body did not open.
#[derive(Debug, Clone, Copy, PartialEq, Eq, Structural)]
pub enum StreamFailure {
    /// The record with this counter did not authenticate.
    Record(u32),
    /// The stream ended after `got` of `total` records.
    EndedEarly { got: u64, total: u64 },
}

/// Opening the first `k` full records of `cipher`, none of them the last:
/// the plaintexts one after another, or the first record that fails.
pub open spec fn open_full_records(key: Seq<u8>, prefix: Seq<u8>, cipher: Seq<u8>, k: nat) -> Result<Seq<u8>, StreamFailure>
    decreases k,
{
    if k == 0 {
        Ok(Seq::empty())
    } else {
        match open_full_records(key, prefix, cipher, (k - 1) as nat) {
            Err(f) => Err(f),
            Ok(p) => match aes256gcm_opened(key, nonce_layout(prefix, (k - 1) as u32, false), record_at(cipher, k - 1)) {
                Some(q) => Ok(p + q),
                None => Err(StreamFailure::Record((k - 1) as u32)),
            },
        }
    }
}

/// How many full records a reader consumes from `cipher` before the end of
/// a body of `total` records: every complete one but the last.
pub open spec fn full_records(total: int, cipher: Seq<u8>) -> int {
    let whole = cipher.len() as int / (CHUNK_CIPHERTEXT_SIZE as int);
    if whole < total - 1 { whole } else { total - 1 }
}

/// What a body announced as `cipher_len` bytes opens to, given the bytes
/// `cipher` that actually arrived: every record but the last is exactly one
/// full record long, so the framing is unambiguous; each record opens under
/// the nonce of its position, the last one marked final. Tampering,
/// reordering or truncation make a record fail to authenticate, and a
/// stream that ends before its last record is refused.
pub open spec fn stream_opening(key: Seq<u8>, prefix: Seq<u8>, cipher_len: int, cipher: Seq<u8>) -> Result<Seq<u8>, StreamFailure> {
    let total = cipher_records(cipher_len);
    let full = full_records(total, cipher);
    match open_full_records(key, prefix, cipher, full as nat) {
        Err(f) => Err(f),
        Ok(p) => if full != total - 1 {
            Err(StreamFailure::EndedEarly { got: full as u64, total: total as u64 })
        } else {
            match aes256gcm_opened(key, nonce_layout(prefix, (total - 1) as u32, true),
                cipher.subrange(full * CHUNK_CIPHERTEXT_SIZE, cipher.len() as int)) {
                Some(q) => Ok(p + q),
                None => Err(StreamFailure::Record((total - 1) as u32)),
            }
        },
    }
}

/// The records of a well-sealed body: one per chunk, each chunk full but the
/// last, each record a tag longer than its chunk and opening under the
/// nonce of its position to that chunk.
pub open spec fn well_sealed(key: Seq<u8>, prefix: Seq<u8>, chunks: Seq<Seq<u8>>, records: Seq<Seq<u8>>) -> bool {
    &&& chunks.len() >= 1
    &&& chunks.len() - 1 <= u32::MAX
    &&& records.len() == chunks.len()
    &&& forall|i: int| 0 <= i < chunks.len() - 1 ==> (#[trigger] chunks[i]).len() == CHUNK_SIZE
    &&& chunks.last().len() <= CHUNK_SIZE
    &&& forall|i: int| 0 <= i < chunks.len() ==> (#[trigger] records[i]).len() == chunks[i].len() + TAG_LEN
    &&& forall|i: int| 0 <= i < chunks.len() ==> aes256gcm_opened(key,
            nonce_layout(prefix, i as u32, i == chunks.len() - 1), #[trigger] records[i]) == Some(chunks[i])
}

/// The length of the first `k` records of a well-sealed body.
proof fn lemma_prefix_len(key: Seq<u8>, prefix: Seq<u8>, chunks: Seq<Seq<u8>>, records: Seq<Seq<u8>>, k: int)
    requires
        well_sealed(key, prefix, chunks, records),
        0 <= k <= records.len() - 1,
    ensures
        concat(records.subrange(0, k)).len() == k * CHUNK_CIPHERTEXT_SIZE,
    decreases k,
{
    if k > 0 {
        lemma_prefix_len(key, prefix, chunks, records, k - 1);
        assert(records.subrange(0, k).drop_last() =~= records.subrange(0, k - 1));
        assert(records[k - 1].len() == chunks[k - 1].len() + TAG_LEN);
    }
}

/// A concatenation's prefix is the concatenation of a prefix of the parts.
proof fn lemma_concat_prefix(parts: Seq<Seq<u8>>, k: int)
    requires
        0 <= k <= parts.len(),
    ensures
        concat(parts).subrange(0, concat(parts.subrange(0, k)).len() as int) == concat(parts.subrange(0, k)),
        concat(parts.subrange(0, k)).len() <= concat(parts).len(),
    decreases parts.len() - k,
{
    if k == parts.len() {
        assert(parts.subrange(0, k) =~= parts);
        assert(concat(parts).subrange(0, concat(parts).len() as int) =~= concat(parts));
    } else {
        lemma_concat_prefix(parts, k + 1);
        let a = concat(parts.subrange(0, k));
        let b = concat(parts.subrange(0, k + 1));
        assert(parts.subrange(0, k + 1).drop_last() =~= parts.subrange(0, k));
        assert(b == a + parts[k]);
        assert(concat(parts).subrange(0, a.len() as int) =~= b.subrange(0, a.len() as int));
        assert(b.subrange(0, a.len() as int) =~= a);
    }
}

/// Record `i` of a well-sealed body sits at its full-record offset.
proof fn lemma_record_at(key: Seq<u8>, prefix: Seq<u8>, chunks: Seq<Seq<u8>>, records: Seq<Seq<u8>>, i: int)
    requires
        well_sealed(key, prefix, chunks, records),
        0 <= i < records.len() - 1,
    ensures
        record_at(concat(records), i) == records[i],
{
    let c = concat(records);
    lemma_prefix_len(key, prefix, chunks, records, i);
    lemma_prefix_len(key, prefix, chunks, records, i + 1);
    lemma_concat_prefix(records, i + 1);
    let a = concat(records.subrange(0, i));
    let b = concat(records.subrange(0, i + 1));
    assert(records.subrange(0, i + 1).drop_last() =~= records.subrange(0, i));
    assert(b == a + records[i]);
    assert(c.subrange(0, b.len() as int) == b);
    assert(record_at(c, i) =~= b.subrange(a.len() as int, b.len() as int));
    assert(b.subrange(a.len() as int, b.len() as int) =~= records[i]);
}

/// The full records of a well-sealed body open to its chunks.
proof fn lemma_full_records_open(key: Seq<u8>, prefix: Seq<u8>, chunks: Seq<Seq<u8>>, records: Seq<Seq<u8>>, k: nat)
    requires
        well_sealed(key, prefix, chunks, records),
        k <= records.len() - 1,
    ensures
        open_full_records(key, prefix, concat(records), k) == Ok::<Seq<u8>, StreamFailure>(concat(chunks.subrange(0, k as int))),
    decreases k,
{
    if k > 0 {
        let j = (k - 1) as int;
        lemma_full_records_open(key, prefix, chunks, records, (k - 1) as nat);
        lemma_record_at(key, prefix, chunks, records, j);
        assert(aes256gcm_opened(key, nonce_layout(prefix, j as u32, j == chunks.len() - 1), records[j]) == Some(chunks[j]));
        assert(chunks.subrange(0, k as int).drop_last() =~= chunks.subrange(0, j));
    }
}

/// What is sealed record by record opens, streamed back, to exactly what was
/// sealed: a well-sealed body of `chunks` is framed into the same records
/// and yields the chunks one after another.
pub proof fn lemma_stream_round_trip(key: Seq<u8>, prefix: Seq<u8>, chunks: Seq<Seq<u8>>, records: Seq<Seq<u8>>)
    requires
        well_sealed(key, prefix, chunks, records),
    ensures
        stream_opening(key, prefix, concat(records).len() as int, concat(records)) == Ok::<Seq<u8>, StreamFailure>(concat(chunks)),
{
    let n = records.len() as int;
    let c = concat(records);
    lemma_prefix_len(key, prefix, chunks, records, n - 1);
    let a = concat(records.subrange(0, n - 1));
    assert(records.subrange(0, n).drop_last() =~= records.subrange(0, n - 1));
    assert(records.subrange(0, n) =~= records);
    assert(c == a + records[n - 1]);
    let l = records[n - 1].len() as int;
    assert(TAG_LEN <= l <= CHUNK_CIPHERTEXT_SIZE);
    let big = CHUNK_CIPHERTEXT_SIZE as int;
    assert(c.len() == (n - 1) * big + l);
    assert(cipher_records(c.len() as int) == n) by {
        assert((n - 1) * big + l + big - 1 == n * big + (l - 1)) by (nonlinear_arith);
        vstd::arithmetic::div_mod::lemma_fundamental_div_mod_converse(n * big + (l - 1), big, n, l - 1);
        assert(c.len() > 0);
    }
    assert(full_records(n, c) == n - 1) by {
        if l < big {
            vstd::arithmetic::div_mod::lemma_fundamental_div_mod_converse(c.len() as int, big, n - 1, l);
        } else {
            assert(c.len() == n * big) by (nonlinear_arith)
                requires c.len() == (n - 1) * big + l, l == big;
            vstd::arithmetic::div_mod::lemma_fundamental_div_mod_converse(c.len() as int, big, n, 0);
        }
    }
    lemma_full_records_open(key, prefix, chunks, records, (n - 1) as nat);
    assert(c.subrange((n - 1) * big, c.len() as int) =~= records[n - 1]);
    assert(chunks.subrange(0, n) =~= chunks);
    assert(chunks.subrange(0, n).drop_last() =~= chunks.subrange(0, n - 1));
}

impl StreamFailure {
    /// The message the failure is reported with.
    pub fn message(&self) -> (m: String)
        ensures
            self matches StreamFailure::Record(c) ==> m@ == "failed to open record "@ + decimal(c as nat),
            self matches StreamFailure::EndedEarly { got, total } ==> m@ == "download ended early: got "@
                + decimal(got as nat) + " of "@ + decimal(total as nat) + " records"@,
    {
        match self {
            StreamFailure::Record(c) => {
                let mut m = "failed to open record ".to_owned();
                push_decimal(&mut m, *c as u64);
                m
            },
            StreamFailure::EndedEarly { got, total } => {
                let mut m = "download ended early: got ".to_owned();
                push_decimal(&mut m, *got);
                m.append(" of ");
                push_decimal(&mut m, *total);
                m.append(" records");
                m
            },
        }
    }
}

/// A failure among the first `k` records is the failure among any more.
proof fn lemma_failure_sticks(key: Seq<u8>, prefix: Seq<u8>, cipher: Seq<u8>, k: nat, m: nat)
    requires
        k <= m,
        open_full_records(key, prefix, cipher, k) is Err,
    ensures
        open_full_records(key, prefix, cipher, m) == open_full_records(key, prefix, cipher, k),
    decreases m - k,
{
    if m > k {
        lemma_failure_sticks(key, prefix, cipher, k, (m - 1) as nat);
    }
}

/// Opening the first `k` records reads only the bytes they occupy.
proof fn lemma_full_records_prefix(key: Seq<u8>, prefix: Seq<u8>, cipher: Seq<u8>, more: Seq<u8>, k: nat)
    requires
        k * CHUNK_CIPHERTEXT_SIZE <= cipher.len(),
    ensures
        open_full_records(key, prefix, cipher + more, k) == open_full_records(key, prefix, cipher, k),
    decreases k,
{
    if k > 0 {
        lemma_full_records_prefix(key, prefix, cipher, more, (k - 1) as nat);
        assert(record_at(cipher + more, k - 1) =~= record_at(cipher, k - 1));
    }
}

/// Decrypts a ciphertext stream as it arrives, verifying record framing: at
/// most one record beyond what is complete is ever buffered.
pub struct Opener {
    prefix: Vec<u8>,
    buffer: Vec<u8>,
    index: u64,
    total: u64,
    cipher_len: u64,
    key: Ghost<Seq<u8>>,
    received: Ghost<Seq<u8>>,
    produced: Ghost<Seq<u8>>,
}

impl Opener {
    /// The content key records are opened under.
    pub closed spec fn key(&self) -> Seq<u8> {
        self.key@
    }

    /// The file's nonce prefix.
    pub closed spec fn nonce_prefix(&self) -> Seq<u8> {
        self.prefix@
    }

    /// The announced ciphertext length.
    pub closed spec fn announced(&self) -> u64 {
        self.cipher_len
    }

    /// Every byte fed so far.
    pub closed spec fn received(&self) -> Seq<u8> {
        self.received@
    }

    /// Every plaintext byte handed back so far.
    pub closed spec fn produced(&self) -> Seq<u8> {
        self.produced@
    }

    /// The reader's invariant: what is buffered is what arrived after the
    /// records already opened, fewer bytes than a record unless the last
    /// record is being gathered, and what was handed back is those records'
    /// plaintext.
    pub closed spec fn wf(&self) -> bool {
        &&& self.prefix@.len() == NONCE_PREFIX_LEN
        &&& self.total == cipher_records(self.cipher_len as int)
        &&& 1 <= self.total && self.total - 1 <= u32::MAX
        &&& self.index <= self.total - 1
        &&& self.index * CHUNK_CIPHERTEXT_SIZE <= self.received@.len()
        &&& self.buffer@ == self.received@.subrange(self.index * CHUNK_CIPHERTEXT_SIZE, self.received@.len() as int)
        &&& self.index < self.total - 1 ==> self.buffer@.len() < CHUNK_CIPHERTEXT_SIZE
        &&& open_full_records(self.key@, self.prefix@, self.received@, self.index as nat) == Ok::<Seq<u8>, StreamFailure>(self.produced@)
    }

    /// A reader for a body announced as `cipher_len` bytes, sealed under
    /// `keys` with nonce prefix `prefix`.
    pub fn new(keys: &FileKeys, prefix: &[u8], cipher_len: u64) -> (opener: Opener)
        requires
            prefix@.len() == NONCE_PREFIX_LEN,
            cipher_records(cipher_len as int) - 1 <= u32::MAX,
        ensures
            opener.wf(),
            opener.key() == keys.content_key(),
            opener.nonce_prefix() == prefix@,
            opener.announced() == cipher_len,
            opener.received() == Seq::<u8>::empty(),
            opener.produced() == Seq::<u8>::empty(),
    {
        let total = cipher_record_count(cipher_len);
        let opener = Opener {
            prefix: vstd::slice::slice_to_vec(prefix),
            buffer: Vec::new(),
            index: 0,
            total,
            cipher_len,
            key: Ghost(keys.content_key()),
            received: Ghost(Seq::empty()),
            produced: Ghost(Seq::empty()),
        };
        assert(opener.buffer@ =~= opener.received@.subrange(0, 0));
        opener
    }

    /// Take in the next chunk of ciphertext and open every record it
    /// completes, except the last record, which waits for the end of the
    /// stream. Gives back their plaintext, or the first record that fails.
    pub fn push(&mut self, keys: &FileKeys, chunk: &[u8]) -> (out: Result<Vec<u8>, StreamFailure>)
        requires
            old(self).wf(),
            keys.content_key() == old(self).key(),
        ensures
            final(self).key() == old(self).key(),
            final(self).nonce_prefix() == old(self).nonce_prefix(),
            final(self).announced() == old(self).announced(),
            final(self).received() == old(self).received() + chunk@,
            out matches Ok(p) ==> final(self).wf() && final(self).produced() == old(self).produced() + p@,
            out matches Err(f) ==> open_full_records(old(self).key(), old(self).nonce_prefix(), final(self).received(),
                full_records(cipher_records(old(self).announced() as int), final(self).received()) as nat)
                == Err::<Seq<u8>, StreamFailure>(f),
    {
        let ghost before = self.received@;
        let ghost done = self.produced@;
        let mut incoming = vstd::slice::slice_to_vec(chunk);
        self.buffer.append(&mut incoming);
        self.received = Ghost(before + chunk@);
        proof {
            lemma_full_records_prefix(self.key@, self.prefix@, before, chunk@, self.index as nat);
            assert(self.buffer@ =~= self.received@.subrange(self.index * CHUNK_CIPHERTEXT_SIZE, self.received@.len() as int));
        }
        let mut out: Vec<u8> = Vec::new();
        while self.index + 1 < self.total && self.buffer.len() >= CHUNK_CIPHERTEXT_SIZE
            invariant
                self.prefix@.len() == NONCE_PREFIX_LEN,
                self.total == cipher_records(self.cipher_len as int),
                1 <= self.total && self.total - 1 <= u32::MAX,
                self.index <= self.total - 1,
                self.index * CHUNK_CIPHERTEXT_SIZE <= self.received@.len(),
                self.buffer@ == self.received@.subrange(self.index * CHUNK_CIPHERTEXT_SIZE, self.received@.len() as int),
                open_full_records(self.key@, self.prefix@, self.received@, self.index as nat)
                    == Ok::<Seq<u8>, StreamFailure>(done + out@),
                keys.content_key() == self.key@,
                self.key@ == old(self).key@,
                self.prefix@ == old(self).prefix@,
                self.cipher_len == old(self).cipher_len,
                self.received@ == before + chunk@,
                before == old(self).received@,
                done == old(self).produced@,
            decreases self.total - self.index,
        {
            let mut record = self.buffer.split_off(CHUNK_CIPHERTEXT_SIZE);
            std::mem::swap(&mut record, &mut self.buffer);
            let counter = record_index(self.index);
            let ghost at = self.index * CHUNK_CIPHERTEXT_SIZE;
            proof {
                assert(record@ =~= record_at(self.received@, self.index as int));
            }
            match keys.open_record(self.prefix.as_slice(), counter, false, record.as_slice()) {
                Ok(p) => {
                    let ghost so_far = out@;
                    let mut plain = p;
                    out.append(&mut plain);
                    proof {
                        assert(out@ == so_far + p@);
                        assert(done + out@ =~= (done + so_far) + p@);
                    }
                },
                Err(_) => {
                    proof {
                        let full = full_records(self.total as int, self.received@);
                        assert(self.received@.len() >= (self.index + 1) * CHUNK_CIPHERTEXT_SIZE);
                        assert(self.received@.len() as int / (CHUNK_CIPHERTEXT_SIZE as int) >= self.index + 1) by {
                            vstd::arithmetic::div_mod::lemma_div_is_ordered((self.index + 1) * CHUNK_CIPHERTEXT_SIZE,
                                self.received@.len() as int, CHUNK_CIPHERTEXT_SIZE as int);
                            vstd::arithmetic::div_mod::lemma_div_multiples_vanish(self.index + 1, CHUNK_CIPHERTEXT_SIZE as int);
                        }
                        assert(open_full_records(self.key@, self.prefix@, self.received@, (self.index + 1) as nat)
                            == Err::<Seq<u8>, StreamFailure>(StreamFailure::Record(counter)));
                        lemma_failure_sticks(self.key@, self.prefix@, self.received@, (self.index + 1) as nat, full as nat);
                    }
                    return Err(StreamFailure::Record(counter));
                },
            }
            self.index = self.index + 1;
            proof {
                assert(self.buffer@ =~= self.received@.subrange(self.index * CHUNK_CIPHERTEXT_SIZE, self.received@.len() as int));
            }
        }
        self.produced = Ghost(done + out@);
        Ok(out)
    }

    /// The stream ended: refuse it if records are missing, else open the
    /// last record, marked final, from everything still buffered.
    pub fn finish(self, keys: &FileKeys) -> (out: Result<Vec<u8>, StreamFailure>)
        requires
            self.wf(),
            keys.content_key() == self.key(),
        ensures
            out matches Ok(p) ==> stream_opening(self.key(), self.nonce_prefix(), self.announced() as int, self.received())
                == Ok::<Seq<u8>, StreamFailure>(self.produced() + p@),
            out matches Err(f) ==> stream_opening(self.key(), self.nonce_prefix(), self.announced() as int, self.received())
                == Err::<Seq<u8>, StreamFailure>(f),
    {
        proof {
            let big = CHUNK_CIPHERTEXT_SIZE as int;
            let len = self.received@.len() as int;
            if self.index < self.total - 1 {
                vstd::arithmetic::div_mod::lemma_fundamental_div_mod_converse(len, big, self.index as int,
                    len - self.index * big);
            } else {
                vstd::arithmetic::div_mod::lemma_div_is_ordered(self.index * big, len, big);
                vstd::arithmetic::div_mod::lemma_div_multiples_vanish(self.index as int, big);
            }
            assert(full_records(self.total as int, self.received@) == self.index);
        }
        if self.index + 1 != self.total {
            return Err(StreamFailure::EndedEarly { got: self.index, total: self.total });
        }
        let counter = record_index(self.index);
        match keys.open_record(self.prefix.as_slice(), counter, true, self.buffer.as_slice()) {
            Ok(p) => Ok(p),
            Err(_) => Err(StreamFailure::Record(counter)),
        }
    }
}

/// Seals a body record by record as its plaintext is read, so at most one
/// plaintext record is ever held: `plain_record_count(size)` records, each
/// under the nonce of its position, the last one marked final.
pub struct Sealer {
    prefix: Vec<u8>,
    index: u32,
    records: u32,
    key: Ghost<Seq<u8>>,
    chunks: Ghost<Seq<Seq<u8>>>,
    sealed: Ghost<Seq<Seq<u8>>>,
}

impl Sealer {
    /// The content key records are sealed under.
    pub closed spec fn key(&self) -> Seq<u8> {
        self.key@
    }

    /// The file's nonce prefix.
    pub closed spec fn nonce_prefix(&self) -> Seq<u8> {
        self.prefix@
    }

    /// How many records the body seals into.
    pub closed spec fn record_total(&self) -> nat {
        self.records as nat
    }

    /// The plaintext chunks sealed so far.
    pub closed spec fn chunks(&self) -> Seq<Seq<u8>> {
        self.chunks@
    }

    /// The records produced so far, one per chunk.
    pub closed spec fn sealed_records(&self) -> Seq<Seq<u8>> {
        self.sealed@
    }

    /// The sealer's invariant: one record per chunk so far, each a tag longer
    /// than its chunk and opening, under the nonce of its position, to it.
    pub closed spec fn wf(&self) -> bool {
        &&& self.prefix@.len() == NONCE_PREFIX_LEN
        &&& self.records >= 1
        &&& self.index <= self.records
        &&& self.chunks@.len() == self.index
        &&& self.sealed@.len() == self.index
        &&& forall|i: int| 0 <= i < self.index ==> (#[trigger] self.sealed@[i]).len() == self.chunks@[i].len() + TAG_LEN
        &&& forall|i: int| 0 <= i < self.index ==> aes256gcm_opened(self.key@,
                nonce_layout(self.prefix@, i as u32, i == self.records - 1), #[trigger] self.sealed@[i]) == Some(self.chunks@[i])
        &&& forall|i: int| 0 <= i < self.index ==> #[trigger] self.sealed@[i] == aes256gcm_sealed(self.key@,
                nonce_layout(self.prefix@, i as u32, i == self.records - 1), self.chunks@[i])
    }

    /// A sealer for a plaintext of `size` bytes under `keys` and `prefix`.
    pub fn new(keys: &FileKeys, prefix: &[u8], size: u64) -> (sealer: Sealer)
        requires
            prefix@.len() == NONCE_PREFIX_LEN,
            plain_records(size as int) <= u32::MAX,
        ensures
            sealer.wf(),
            sealer.key() == keys.content_key(),
            sealer.nonce_prefix() == prefix@,
            sealer.record_total() == plain_records(size as int),
            sealer.chunks() == Seq::<Seq<u8>>::empty(),
    {
        Sealer {
            prefix: vstd::slice::slice_to_vec(prefix),
            index: 0,
            records: plain_record_count(size),
            key: Ghost(keys.content_key()),
            chunks: Ghost(Seq::empty()),
            sealed: Ghost(Seq::empty()),
        }
    }

    /// Whether every record has been sealed.
    pub fn is_done(&self) -> (done: bool)
        requires
            self.wf(),
        ensures
            done == (self.chunks().len() == self.record_total()),
    {
        self.index >= self.records
    }

    /// Seal the next record from a chunk of at most `CHUNK_SIZE` bytes read
    /// from the file, marking it final when it is the last.
    pub fn seal_next(&mut self, keys: &FileKeys, chunk: &[u8]) -> (record: Vec<u8>)
        requires
            old(self).wf(),
            old(self).chunks().len() < old(self).record_total(),
            keys.content_key() == old(self).key(),
            chunk@.len() <= CHUNK_SIZE,
        ensures
            final(self).wf(),
            final(self).key() == old(self).key(),
            final(self).nonce_prefix() == old(self).nonce_prefix(),
            final(self).record_total() == old(self).record_total(),
            final(self).chunks() == old(self).chunks().push(chunk@),
            final(self).sealed_records() == old(self).sealed_records().push(record@),
    {
        let last = self.index + 1 == self.records;
        let sealed = keys.seal_record(self.prefix.as_slice(), self.index, last, chunk);
        let record = match sealed {
            Ok(r) => r,
            Err(_) => {
                proof { assert(false); }
                Vec::new()
            },
        };
        let ghost i = self.index as int;
        self.chunks = Ghost(self.chunks@.push(chunk@));
        self.sealed = Ghost(self.sealed@.push(record@));
        self.index = self.index + 1;
        proof {
            assert forall|j: int| 0 <= j < self.index implies (#[trigger] self.sealed@[j]).len() == self.chunks@[j].len() + TAG_LEN by {
                if j < i {
                    assert(self.sealed@[j] == old(self).sealed@[j]);
                }
            }
            assert forall|j: int| 0 <= j < self.index implies aes256gcm_opened(self.key@,
                nonce_layout(self.prefix@, j as u32, j == self.records - 1), #[trigger] self.sealed@[j]) == Some(self.chunks@[j]) by {
                if j < i {
                    assert(self.sealed@[j] == old(self).sealed@[j]);
                }
            }
            assert forall|j: int| 0 <= j < self.index implies #[trigger] self.sealed@[j] == aes256gcm_sealed(self.key@,
                nonce_layout(self.prefix@, j as u32, j == self.records - 1), self.chunks@[j]) by {
                if j < i {
                    assert(self.sealed@[j] == old(self).sealed@[j]);
                }
            }
        }
        record
    }

    /// Once every record is sealed from chunks that were full but the last,
    /// the records form a well-sealed body of those chunks.
    pub proof fn lemma_done_is_well_sealed(&self)
        requires
            self.wf(),
            self.chunks().len() == self.record_total(),
            forall|i: int| 0 <= i < self.chunks().len() - 1 ==> (#[trigger] self.chunks()[i]).len() == CHUNK_SIZE,
            self.chunks().last().len() <= CHUNK_SIZE,
        ensures
            well_sealed(self.key(), self.nonce_prefix(), self.chunks(), self.sealed_records()),
    {
    }
}

/// The secret a page's `location.hash` carries: the base64url of exactly
/// `SECRET_LEN` bytes, after a leading `#` if there is one.
pub open spec fn fragment_secret(hash: Seq<char>) -> Option<Seq<u8>> {
    let raw = if hash.len() > 0 && hash[0] == '#' { hash.drop_first() } else { hash };
    match crate::b64::b64url_decoded(raw) {
        Some(s) => if s.len() == SECRET_LEN { Some(s) } else { None },
        None => None,
    }
}

/// Read the secret back out of a page's `location.hash`.
pub fn secret_from_fragment(hash: &str) -> (secret: Option<Vec<u8>>)
    ensures
        crate::b64::opt_bytes(secret) == fragment_secret(hash@),
{
    let v = chars_of(hash);
    let raw = if v.len() > 0 && v[0] == '#' {
        string_of(&v.as_slice()[1..v.len()])
    } else {
        string_of(v.as_slice())
    };
    proof {
        if v@.len() > 0 && v@[0] == '#' {
            assert(raw@ =~= hash@.drop_first());
        }
    }
    let secret = crate::b64::decode(raw.as_str())?;
    if secret.len() == SECRET_LEN {
        Some(secret)
    } else {
        None
    }
}

} // verus!
