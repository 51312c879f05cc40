//! Track files: a header and a run of records of one size.
//!
//! A track file is held in memory as what it means, its header and its
//! entries. [`TrackFile::bytes`] gives the image that is kept on disk and
//! [`TrackFile::new`] reads such an image back. Every number of the image
//! is a word of eight bytes, least significant byte first.

use crate::text::{nat_digits, push_str, push_u64};
use vstd::bytes::{
    lemma_auto_spec_u64_to_from_le_bytes, spec_u64_from_le_bytes, spec_u64_to_le_bytes,
    u64_from_le_bytes, u64_to_le_bytes,
};
use vstd::prelude::*;

verus! {

/// What can go wrong with a track file.
#[derive(Debug)]
pub enum TrackFileError {
    /// The file could not be read or written; the text says why.
    IOError(String),
    InvalidMagicNumber,
    /// The length that the header asks for, and the length that was found.
    InvalidFileLength(usize, usize),
    InsufficientDataLength(usize),
    IndexError(usize),
}

pub enum TrackFileErrorView {
    IOError(Seq<char>),
    InvalidMagicNumber,
    InvalidFileLength(usize, usize),
    InsufficientDataLength(usize),
    IndexError(usize),
}

impl View for TrackFileError {
    type V = TrackFileErrorView;

    open spec fn view(&self) -> TrackFileErrorView {
        match self {
            TrackFileError::IOError(s) => TrackFileErrorView::IOError(s@),
            TrackFileError::InvalidMagicNumber => TrackFileErrorView::InvalidMagicNumber,
            TrackFileError::InvalidFileLength(a, b) => TrackFileErrorView::InvalidFileLength(
                *a,
                *b,
            ),
            TrackFileError::InsufficientDataLength(n) => TrackFileErrorView::InsufficientDataLength(
                *n,
            ),
            TrackFileError::IndexError(i) => TrackFileErrorView::IndexError(*i),
        }
    }
}

impl TrackFileErrorView {
    pub open spec fn message(self) -> Seq<char> {
        match self {
            TrackFileErrorView::IOError(s) => "TrackFileError: "@ + s,
            TrackFileErrorView::InvalidMagicNumber => "Track file corrupted, invalid magic number"@,
            TrackFileErrorView::InvalidFileLength(expected, got) =>
                "Invalid track file length: expected "@ + nat_digits(expected as nat) + ", got "@
                    + nat_digits(got as nat),
            TrackFileErrorView::InsufficientDataLength(n) =>
                "Insufficient data length while parsing track file entry: "@ + nat_digits(n as nat),
            TrackFileErrorView::IndexError(i) => "Invalid index "@ + nat_digits(i as nat)
                + " while reading track file data"@,
        }
    }
}

impl TrackFileError {
    pub fn to_string(&self) -> (s: String)
        ensures
            s@ == self@.message(),
    {
        let mut s = String::new();
        match self {
            TrackFileError::IOError(e) => {
                push_str(&mut s, "TrackFileError: ");
                push_str(&mut s, e.as_str());
            },
            TrackFileError::InvalidMagicNumber => {
                push_str(&mut s, "Track file corrupted, invalid magic number");
            },
            TrackFileError::InvalidFileLength(expected, got) => {
                push_str(&mut s, "Invalid track file length: expected ");
                push_u64(&mut s, *expected as u64);
                push_str(&mut s, ", got ");
                push_u64(&mut s, *got as u64);
            },
            TrackFileError::InsufficientDataLength(n) => {
                push_str(&mut s, "Insufficient data length while parsing track file entry: ");
                push_u64(&mut s, *n as u64);
            },
            TrackFileError::IndexError(i) => {
                push_str(&mut s, "Invalid index ");
                push_u64(&mut s, *i as u64);
                push_str(&mut s, " while reading track file data");
            },
        }
        assert(s@ =~= self@.message());
        s
    }
}

/// The bytes of a run of words, each word least significant byte first.
pub open spec fn words_bytes(w: Seq<u64>) -> Seq<u8>
    decreases w.len(),
{
    if w.len() == 0 {
        Seq::empty()
    } else {
        words_bytes(w.drop_last()) + spec_u64_to_le_bytes(w.last())
    }
}

/// The `n` words that `b` starts with.
pub open spec fn bytes_words(b: Seq<u8>, n: nat) -> Seq<u64> {
    Seq::new(n, |i: int| spec_u64_from_le_bytes(b.subrange(8 * i, 8 * i + 8)))
}

/// Only the bytes of the first `n` words count.
pub proof fn lemma_bytes_words_prefix(b: Seq<u8>, n: nat)
    requires
        b.len() >= 8 * n,
    ensures
        bytes_words(b.subrange(0, 8 * n as int), n) == bytes_words(b, n),
{
    assert forall|i: int| 0 <= i < n implies #[trigger] bytes_words(b.subrange(0, 8 * n as int), n)[i]
        == bytes_words(b, n)[i] by {
        assert(b.subrange(0, 8 * n as int).subrange(8 * i, 8 * i + 8) =~= b.subrange(8 * i, 8 * i + 8));
    }
    assert(bytes_words(b.subrange(0, 8 * n as int), n) =~= bytes_words(b, n));
}

/// Every word takes eight bytes.
pub proof fn lemma_words_bytes_len(w: Seq<u64>)
    ensures
        words_bytes(w).len() == 8 * w.len(),
    decreases w.len(),
{
    lemma_auto_spec_u64_to_from_le_bytes();
    if w.len() > 0 {
        lemma_words_bytes_len(w.drop_last());
    }
}

/// Words come back from their bytes as they were, whatever follows the
/// bytes.
pub proof fn lemma_words_roundtrip(w: Seq<u64>, rest: Seq<u8>)
    ensures
        bytes_words(words_bytes(w) + rest, w.len()) == w,
    decreases w.len(),
{
    lemma_auto_spec_u64_to_from_le_bytes();
    lemma_words_bytes_len(w);
    if w.len() > 0 {
        let front = w.drop_last();
        let last = spec_u64_to_le_bytes(w.last());
        lemma_words_bytes_len(front);
        lemma_words_roundtrip(front, last + rest);
        assert(words_bytes(front) + (last + rest) =~= words_bytes(w) + rest);
        let all = words_bytes(w) + rest;
        assert forall|i: int| 0 <= i < w.len() implies bytes_words(all, w.len())[i] == w[i] by {
            if i < front.len() {
                assert(bytes_words(all, front.len())[i] == front[i]);
            } else {
                assert(all.subrange(8 * i, 8 * i + 8) =~= last);
            }
        }
        assert(bytes_words(all, w.len()) =~= w);
    } else {
        assert(bytes_words(words_bytes(w) + rest, 0) =~= w);
    }
}


/// The word that stands for a signed number: its two's complement.
pub open spec fn spec_word_of(x: int) -> u64 {
    if x >= 0 {
        x as u64
    } else {
        (x + 0x1_0000_0000_0000_0000) as u64
    }
}

/// The signed number that a word stands for.
pub open spec fn spec_signed_of(w: u64) -> i64 {
    if w < 0x8000_0000_0000_0000 {
        w as i64
    } else {
        (w - 0x1_0000_0000_0000_0000) as i64
    }
}

/// The signed number that a word stands for, or 0 where it lies out of
/// `[min, max]`.
pub open spec fn spec_signed_within(w: u64, min: int, max: int) -> int {
    if min <= spec_signed_of(w) <= max {
        spec_signed_of(w) as int
    } else {
        0
    }
}

pub open spec fn spec_word_of_bool(b: bool) -> u64 {
    if b {
        1
    } else {
        0
    }
}

pub fn word_of(x: i64) -> (w: u64)
    ensures
        w == spec_word_of(x as int),
{
    if x >= 0 {
        x as u64
    } else {
        (x as i128 + 0x1_0000_0000_0000_0000) as u64
    }
}

pub fn signed_of(w: u64) -> (x: i64)
    ensures
        x == spec_signed_of(w),
{
    if w < 0x8000_0000_0000_0000 {
        w as i64
    } else {
        (w as i128 - 0x1_0000_0000_0000_0000) as i64
    }
}

pub fn i32_of(w: u64) -> (x: i32)
    ensures
        x == spec_signed_within(w, i32::MIN as int, i32::MAX as int),
{
    let v = signed_of(w);
    if -0x8000_0000 <= v && v <= 0x7fff_ffff {
        v as i32
    } else {
        0
    }
}

pub fn i16_of(w: u64) -> (x: i16)
    ensures
        x == spec_signed_within(w, i16::MIN as int, i16::MAX as int),
{
    let v = signed_of(w);
    if -0x8000 <= v && v <= 0x7fff {
        v as i16
    } else {
        0
    }
}

pub fn word_of_bool(b: bool) -> (w: u64)
    ensures
        w == spec_word_of_bool(b),
{
    if b {
        1
    } else {
        0
    }
}

/// What a track file is made of: a value that is written as a fixed number
/// of words.
pub trait Record: Sized {
    /// How many words one value takes.
    spec fn word_count() -> nat;

    spec fn spec_encode(&self) -> Seq<u64>;

    spec fn spec_decode(w: Seq<u64>) -> Self;

    /// A value takes at least one word, and its words give it back.
    proof fn lemma_roundtrip(&self)
        ensures
            0 < Self::word_count() <= 0x1000,
            self.spec_encode().len() == Self::word_count(),
            Self::spec_decode(self.spec_encode()) == *self,
    ;

    fn words() -> (n: usize)
        ensures
            n == Self::word_count(),
    ;

    fn encode(&self) -> (w: Vec<u64>)
        ensures
            w@ == self.spec_encode(),
    ;

    fn decode(w: &Vec<u64>) -> (r: Self)
        requires
            w@.len() == Self::word_count(),
        ensures
            r == Self::spec_decode(w@),
    ;
}

/// What the header of a track file must offer.
pub trait TrackFileHeader: Record {
    spec fn spec_check_magic(&self) -> bool;

    spec fn spec_version(&self) -> u64;

    spec fn spec_timestamp(&self) -> u64;

    spec fn spec_count(&self) -> u64;

    /// The header of a file without entries, made at `now`.
    spec fn spec_default(now: u64) -> Self;

    /// The header after one more entry was written at `now`.
    spec fn spec_inc(&self, now: u64) -> Self;

    proof fn lemma_header(&self, now: u64)
        ensures
            Self::spec_default(now).spec_check_magic(),
            Self::spec_default(now).spec_count() == 0,
            Self::spec_default(now).spec_timestamp() == now,
            self.spec_count() < u64::MAX ==> self.spec_inc(now).spec_count() == self.spec_count()
                + 1,
            self.spec_inc(now).spec_timestamp() == now,
            self.spec_inc(now).spec_check_magic() == self.spec_check_magic(),
            self.spec_inc(now).spec_version() == self.spec_version(),
    ;

    fn default_at(now: u64) -> (h: Self)
        ensures
            h == Self::spec_default(now),
    ;

    fn check_magic(&self) -> (b: bool)
        ensures
            b == self.spec_check_magic(),
    ;

    fn version(&self) -> (v: u64)
        ensures
            v == self.spec_version(),
    ;

    /// When the file was last written, in milliseconds since the Unix epoch.
    fn timestamp(&self) -> (t: u64)
        ensures
            t == self.spec_timestamp(),
    ;

    fn count(&self) -> (n: u64)
        ensures
            n == self.spec_count(),
    ;

    /// Counts one more entry, written at `now`.
    fn inc(&mut self, now: u64)
        requires
            old(self).spec_count() < u64::MAX,
        ensures
            *final(self) == old(self).spec_inc(now),
    ;
}

/// What the entries of a track file must offer.
pub trait TrackEntry: Record {
    /// Whether the two entries say the same; this need not be equality.
    spec fn alike(&self, other: &Self) -> bool;

    fn same(&self, other: &Self) -> (b: bool)
        ensures
            b == self.alike(other),
    ;

    fn copy(&self) -> (r: Self)
        ensures
            r == *self,
    ;
}


/// A plain number is a record of one word.
impl Record for u64 {
    open spec fn word_count() -> nat {
        1
    }

    open spec fn spec_encode(&self) -> Seq<u64> {
        seq![*self]
    }

    open spec fn spec_decode(w: Seq<u64>) -> Self {
        w[0]
    }

    proof fn lemma_roundtrip(&self) {
    }

    fn words() -> (n: usize) {
        1
    }

    fn encode(&self) -> (w: Vec<u64>) {
        let w = vec![*self];
        assert(w@ =~= self.spec_encode());
        w
    }

    fn decode(w: &Vec<u64>) -> (r: Self) {
        w[0]
    }
}

/// Two plain numbers say the same where they are equal.
impl TrackEntry for u64 {
    open spec fn alike(&self, other: &Self) -> bool {
        *self == *other
    }

    fn same(&self, other: &Self) -> (b: bool) {
        *self == *other
    }

    fn copy(&self) -> (r: Self) {
        *self
    }
}

/// The bytes of a run of entries.
pub open spec fn entries_bytes<E: Record>(entries: Seq<E>) -> Seq<u8>
    decreases entries.len(),
{
    if entries.len() == 0 {
        Seq::empty()
    } else {
        entries_bytes(entries.drop_last()) + words_bytes(entries.last().spec_encode())
    }
}

/// The image of a track file: the header, then the entries.
pub open spec fn image<E: Record, H: Record>(header: H, entries: Seq<E>) -> Seq<u8> {
    words_bytes(header.spec_encode()) + entries_bytes(entries)
}

/// The number of bytes that a value of `R` takes.
pub open spec fn size_of_record<R: Record>() -> nat {
    8 * R::word_count()
}

/// The header that an image starts with; an image that is too short counts
/// as filled up with zeros.
pub open spec fn image_header<H: Record>(data: Seq<u8>) -> H {
    H::spec_decode(bytes_words(padded(data, size_of_record::<H>()), H::word_count()))
}

/// `data`, filled up with zeros to the length `n` where it is shorter.
pub open spec fn padded(data: Seq<u8>, n: nat) -> Seq<u8> {
    if data.len() >= n {
        data
    } else {
        data + Seq::new((n - data.len()) as nat, |i: int| 0u8)
    }
}

/// The entry with index `i` of an image.
pub open spec fn image_entry<E: Record, H: Record>(data: Seq<u8>, i: int) -> E {
    E::spec_decode(
        bytes_words(
            data.subrange(
                size_of_record::<H>() + i * size_of_record::<E>(),
                size_of_record::<H>() + (i + 1) * size_of_record::<E>(),
            ),
            E::word_count(),
        ),
    )
}

/// The first `n` entries of an image.
pub open spec fn image_entries<E: Record, H: Record>(data: Seq<u8>, n: nat) -> Seq<E> {
    Seq::new(n, |i: int| image_entry::<E, H>(data, i))
}

/// The length that the header of an image asks for, held at the largest
/// length there is.
pub open spec fn expected_len<E: Record, H: TrackFileHeader>(header: H) -> usize {
    let len = size_of_record::<H>() + header.spec_count() * size_of_record::<E>();
    if len > usize::MAX {
        usize::MAX
    } else {
        len as usize
    }
}

/// What is wrong with an image, if anything: the magic number first, then
/// the length, which must be that of the header and of as many entries as
/// the header counts.
pub open spec fn image_fault<E: Record, H: TrackFileHeader>(data: Seq<u8>) -> Option<
    TrackFileErrorView,
> {
    let header = image_header::<H>(data);
    if !header.spec_check_magic() {
        Some(TrackFileErrorView::InvalidMagicNumber)
    } else if data.len() != size_of_record::<H>() + header.spec_count() * size_of_record::<E>() {
        Some(
            TrackFileErrorView::InvalidFileLength(
                expected_len::<E, H>(header),
                data.len() as usize,
            ),
        )
    } else {
        None
    }
}

/// The bytes of the entries are the bytes of each entry, one behind the
/// other.
pub proof fn lemma_entries_bytes<E: Record>(entries: Seq<E>, i: int)
    requires
        0 <= i < entries.len(),
    ensures
        entries_bytes(entries).len() == entries.len() * size_of_record::<E>(),
        entries_bytes(entries).subrange(
            i * size_of_record::<E>(),
            (i + 1) * size_of_record::<E>(),
        ) == words_bytes(entries[i].spec_encode()),
    decreases entries.len(),
{
    let size = size_of_record::<E>() as int;
    let front = entries.drop_last();
    let last = words_bytes(entries.last().spec_encode());
    entries.last().lemma_roundtrip();
    lemma_words_bytes_len(entries.last().spec_encode());
    lemma_entries_bytes_len(front);
    assert(entries.len() * size == front.len() * size + size) by (nonlinear_arith)
        requires
            entries.len() == front.len() + 1,
    ;
    assert(i * size + size == (i + 1) * size) by (nonlinear_arith);
    if i < front.len() {
        lemma_entries_bytes(front, i);
        assert((i + 1) * size <= front.len() * size) by (nonlinear_arith)
            requires
                i + 1 <= front.len(),
                size >= 0,
        ;
        assert(entries_bytes(entries).subrange(i * size, (i + 1) * size) =~= entries_bytes(
            front,
        ).subrange(i * size, (i + 1) * size));
    } else {
        assert(entries_bytes(entries).subrange(i * size, (i + 1) * size) =~= last);
    }
}

/// The entries take as many bytes as there are entries times the size of
/// one.
pub proof fn lemma_entries_bytes_len<E: Record>(entries: Seq<E>)
    ensures
        entries_bytes(entries).len() == entries.len() * size_of_record::<E>(),
    decreases entries.len(),
{
    let size = size_of_record::<E>() as int;
    if entries.len() > 0 {
        let front = entries.drop_last();
        entries.last().lemma_roundtrip();
        lemma_words_bytes_len(entries.last().spec_encode());
        lemma_entries_bytes_len(front);
        assert(entries.len() * size == front.len() * size + size) by (nonlinear_arith)
            requires
                entries.len() == front.len() + 1,
        ;
    } else {
        assert(entries.len() * size == 0) by (nonlinear_arith)
            requires
                entries.len() == 0,
        ;
    }
}

/// An image gives back the header and the entries that it was made of, and
/// has the length of the header and of that many entries.
pub proof fn lemma_image_roundtrip<E: Record, H: Record>(header: H, entries: Seq<E>)
    ensures
        image(header, entries).len() == size_of_record::<H>() + entries.len() * size_of_record::<
            E,
        >(),
        image_header::<H>(image(header, entries)) == header,
        image_entries::<E, H>(image(header, entries), entries.len()) == entries,
{
    let data = image(header, entries);
    let hs = size_of_record::<H>() as int;
    let es = size_of_record::<E>() as int;
    header.lemma_roundtrip();
    lemma_words_bytes_len(header.spec_encode());
    lemma_entries_bytes_len(entries);
    lemma_words_roundtrip(header.spec_encode(), entries_bytes(entries));
    assert(padded(data, hs as nat) == data);
    assert forall|i: int| 0 <= i < entries.len() implies image_entry::<E, H>(data, i)
        == entries[i] by {
        lemma_entries_bytes(entries, i);
        entries[i].lemma_roundtrip();
        assert(i * es + es == (i + 1) * es) by (nonlinear_arith);
        assert((i + 1) * es <= entries.len() * es) by (nonlinear_arith)
            requires
                i + 1 <= entries.len(),
                es >= 0,
        ;
        assert(data.subrange(hs + i * es, hs + (i + 1) * es) =~= entries_bytes(entries).subrange(
            i * es,
            (i + 1) * es,
        ));
        lemma_words_roundtrip(entries[i].spec_encode(), Seq::empty());
        assert(words_bytes(entries[i].spec_encode()) + Seq::<u8>::empty() =~= words_bytes(
            entries[i].spec_encode(),
        ));
    }
    assert(image_entries::<E, H>(data, entries.len()) =~= entries);
}

/// Appends the bytes of `w` to `out`.
fn put_words(out: &mut Vec<u8>, w: &Vec<u64>)
    ensures
        final(out)@ == old(out)@ + words_bytes(w@),
{
    let mut i: usize = 0;
    assert(w@.subrange(0, 0) =~= Seq::<u64>::empty());
    assert(out@ =~= old(out)@ + words_bytes(w@.subrange(0, 0)));
    while i < w.len()
        invariant
            i <= w.len(),
            out@ == old(out)@ + words_bytes(w@.subrange(0, i as int)),
        decreases w.len() - i,
    {
        let ghost before = out@;
        let mut b = u64_to_le_bytes(w[i]);
        out.append(&mut b);
        assert(w@.subrange(0, i + 1).drop_last() =~= w@.subrange(0, i as int));
        assert(out@ =~= old(out)@ + words_bytes(w@.subrange(0, i + 1)));
        i += 1;
    }
    assert(w@.subrange(0, i as int) =~= w@);
}

/// Reads `n` words of `data` from the byte `from` on; what lies behind the
/// end of `data` reads as zero.
fn get_words(data: &Vec<u8>, from: usize, n: usize) -> (w: Vec<u64>)
    requires
        from + 8 * n <= usize::MAX,
    ensures
        w@ == bytes_words(
            padded(data@, (from + 8 * n) as nat).subrange(from as int, from + 8 * n),
            n as nat,
        ),
{
    let ghost src = padded(data@, (from + 8 * n) as nat).subrange(from as int, from + 8 * n);
    let mut w: Vec<u64> = Vec::new();
    let mut i: usize = 0;
    while i < n
        invariant
            i <= n,
            from + 8 * n <= usize::MAX,
            src == padded(data@, (from + 8 * n) as nat).subrange(from as int, from + 8 * n),
            w@.len() == i,
            forall|k: int| 0 <= k < i ==> #[trigger] w@[k] == bytes_words(src, n as nat)[k],
        decreases n - i,
    {
        let mut word: Vec<u8> = Vec::new();
        let mut k: usize = 0;
        while k < 8
            invariant
                k <= 8,
                i < n,
                from + 8 * n <= usize::MAX,
                src == padded(data@, (from + 8 * n) as nat).subrange(from as int, from + 8 * n),
                word@.len() == k,
                forall|j: int| 0 <= j < k ==> #[trigger] word@[j] == src[8 * i + j],
            decreases 8 - k,
        {
            let at: usize = from + 8 * i + k;
            if at < data.len() {
                word.push(data[at]);
            } else {
                word.push(0);
            }
            k += 1;
        }
        assert(word@ =~= src.subrange(8 * i, 8 * i + 8));
        w.push(u64_from_le_bytes(word.as_slice()));
        i += 1;
    }
    assert(w@ =~= bytes_words(src, n as nat));
    w
}

/// What an append did to the file.
#[derive(Debug, Clone, Copy, PartialEq, Eq, Structural)]
pub enum Written {
    /// The entry was added behind the last one, and the header counts it.
    Appended,
    /// The entry took the place of the last one; the header did not change.
    ReplacedLast,
}

/// Whether `e` only repeats what the last two of `entries` say.
pub open spec fn repeats<E: TrackEntry>(entries: Seq<E>, e: E) -> bool {
    &&& entries.len() >= 2
    &&& entries[entries.len() - 1].alike(&entries[entries.len() - 2])
    &&& entries[entries.len() - 2].alike(&e)
}

/// The entries after `e` was written: where `e` repeats the last two, it
/// takes the place of the last one, so that a run of entries that say the
/// same keeps its first and its latest entry; else `e` is added.
pub open spec fn with_entry<E: TrackEntry>(entries: Seq<E>, e: E) -> Seq<E> {
    if repeats(entries, e) {
        entries.update(entries.len() - 1, e)
    } else {
        entries.push(e)
    }
}

/// How many entries are read from `pos` on where `len` are asked for: no
/// more than there are.
pub open spec fn clipped(count: int, pos: int, len: int) -> int {
    if pos >= count {
        0
    } else if pos + len > count {
        count - pos
    } else {
        len
    }
}

/// A track file: a header and the entries that it counts, all of one size.
/// The file is held as what it says; its image is what is kept on disk.
pub struct TrackFile<E, H> {
    name: String,
    header: H,
    entries: Vec<E>,
}

impl<E: TrackEntry, H: TrackFileHeader> TrackFile<E, H> {
    pub closed spec fn spec_name(&self) -> Seq<char> {
        self.name@
    }

    pub closed spec fn spec_header(&self) -> H {
        self.header
    }

    pub closed spec fn spec_entries(&self) -> Seq<E> {
        self.entries@
    }

    /// The header knows the magic number and counts the entries.
    pub closed spec fn wf(&self) -> bool {
        &&& self.header.spec_check_magic()
        &&& self.header.spec_count() == self.entries@.len()
    }

    /// The image of the file as it is kept on disk.
    pub open spec fn spec_bytes(&self) -> Seq<u8> {
        image(self.spec_header(), self.spec_entries())
    }

    /// The header of an open file knows the magic number and counts the
    /// entries, and the image of the file is as long as the header and that
    /// many entries.
    pub proof fn lemma_wf(&self)
        requires
            self.wf(),
        ensures
            self.spec_header().spec_check_magic(),
            self.spec_header().spec_count() == self.spec_entries().len(),
            self.spec_bytes().len() == size_of_record::<H>() + self.spec_header().spec_count()
                * size_of_record::<E>(),
            image_fault::<E, H>(self.spec_bytes()) is None,
    {
        lemma_image_roundtrip(self.header, self.entries@);
    }

    /// Opens the track file `filename`. `existing` is the image found on
    /// disk, if the file exists; else a file without entries is made, whose
    /// header says that it was written at `now`.
    pub fn new(filename: &str, existing: Option<&Vec<u8>>, now: u64) -> (r: Result<
        Self,
        TrackFileError,
    >)
        ensures
            match existing {
                None => r is Ok && r->Ok_0.spec_header() == H::spec_default(now)
                    && r->Ok_0.spec_entries() == Seq::<E>::empty(),
                Some(data) => match image_fault::<E, H>(data@) {
                    Some(fault) => r is Err && r->Err_0@ == fault,
                    None => r is Ok && r->Ok_0.spec_header() == image_header::<H>(data@)
                        && r->Ok_0.spec_entries() == image_entries::<E, H>(
                        data@,
                        image_header::<H>(data@).spec_count() as nat,
                    ),
                },
            },
            r is Ok ==> r->Ok_0.wf() && r->Ok_0.spec_name() == filename@,
    {
        let data = match existing {
            None => {
                let header = H::default_at(now);
                proof {
                    header.lemma_header(now);
                }
                return Ok(TrackFile { name: filename.to_owned(), header, entries: Vec::new() });
            },
            Some(data) => data,
        };
        let hw: usize = H::words();
        let ew: usize = E::words();
        proof {
            E::spec_decode(Seq::empty()).lemma_roundtrip();
            H::spec_decode(Seq::empty()).lemma_roundtrip();
        }
        let header = H::decode(&get_words(data, 0, hw));
        proof {
            header.lemma_roundtrip();
            lemma_bytes_words_prefix(padded(data@, (8 * hw) as nat), hw as nat);
        }
        if !header.check_magic() {
            return Err(TrackFileError::InvalidMagicNumber);
        }
        let count: u64 = header.count();
        assert(count * (8 * ew) <= 0xffff_ffff_ffff_ffff * 0x8000) by (nonlinear_arith)
            requires
                0 <= count <= 0xffff_ffff_ffff_ffff,
                0 <= 8 * ew <= 0x8000,
        ;
        let wanted: u128 = 8 * hw as u128 + count as u128 * (8 * ew as u128);
        if wanted != data.len() as u128 {
            let expected: usize = if wanted > usize::MAX as u128 {
                usize::MAX
            } else {
                wanted as usize
            };
            return Err(TrackFileError::InvalidFileLength(expected, data.len()));
        }
        assert(count <= data@.len()) by (nonlinear_arith)
            requires
                data@.len() == 8 * hw + count * (8 * ew),
                ew >= 1,
                hw >= 0,
                count >= 0,
        ;
        let n: usize = count as usize;
        let mut entries: Vec<E> = Vec::new();
        let mut i: usize = 0;
        while i < n
            invariant
                i <= n,
                n == count,
                hw == H::word_count(),
                ew == E::word_count(),
                0 < ew <= 0x1000,
                0 < hw <= 0x1000,
                data@.len() <= usize::MAX,
                data@.len() == 8 * hw + n * (8 * ew),
                entries@.len() == i,
                forall|k: int| 0 <= k < i ==> #[trigger] entries@[k] == image_entry::<E, H>(data@, k),
            decreases n - i,
        {
            assert(8 * hw + (i + 1) * (8 * ew) <= 8 * hw + n * (8 * ew)) by (nonlinear_arith)
                requires
                    i + 1 <= n,
                    ew >= 0,
            ;
            assert(8 * hw + i * (8 * ew) + 8 * ew == 8 * hw + (i + 1) * (8 * ew))
                by (nonlinear_arith);
            assert(0 <= i * (8 * ew)) by (nonlinear_arith)
                requires
                    i >= 0,
                    ew >= 0,
            ;
            let from: usize = 8 * hw + i * (8 * ew);
            let e = E::decode(&get_words(data, from, ew));
            assert(padded(data@, (from + 8 * ew) as nat) == data@);
            assert(i * size_of_record::<E>() == i * (8 * ew)) by (nonlinear_arith)
                requires
                    size_of_record::<E>() == 8 * ew,
            ;
            assert((i + 1) * size_of_record::<E>() == (i + 1) * (8 * ew)) by (nonlinear_arith)
                requires
                    size_of_record::<E>() == 8 * ew,
            ;
            entries.push(e);
            i += 1;
        }
        assert(entries@ =~= image_entries::<E, H>(data@, count as nat));
        assert(count * size_of_record::<E>() == n * (8 * ew)) by (nonlinear_arith)
            requires
                size_of_record::<E>() == 8 * ew,
                count == n,
        ;
        Ok(TrackFile { name: filename.to_owned(), header, entries })
    }

    /// The image of the file as it is kept on disk.
    pub fn bytes(&self) -> (data: Vec<u8>)
        ensures
            data@ == self.spec_bytes(),
    {
        let mut data: Vec<u8> = Vec::new();
        put_words(&mut data, &self.header.encode());
        let ghost head = data@;
        let mut i: usize = 0;
        assert(self.entries@.subrange(0, 0) =~= Seq::<E>::empty());
        assert(data@ =~= head + entries_bytes(self.entries@.subrange(0, 0)));
        while i < self.entries.len()
            invariant
                i <= self.entries.len(),
                head == words_bytes(self.header.spec_encode()),
                data@ == head + entries_bytes(self.entries@.subrange(0, i as int)),
            decreases self.entries.len() - i,
        {
            put_words(&mut data, &self.entries[i].encode());
            assert(self.entries@.subrange(0, i + 1).drop_last() =~= self.entries@.subrange(
                0,
                i as int,
            ));
            assert(data@ =~= head + entries_bytes(self.entries@.subrange(0, i + 1)));
            i += 1;
        }
        assert(self.entries@.subrange(0, i as int) =~= self.entries@);
        data
    }

    pub fn name(&self) -> (s: &str)
        ensures
            s@ == self.spec_name(),
    {
        self.name.as_str()
    }

    /// When the file was last written, in milliseconds since the Unix epoch.
    pub fn mtime(&self) -> (t: u64)
        ensures
            t == self.spec_header().spec_timestamp(),
    {
        self.header.timestamp()
    }

    pub fn count(&self) -> (n: u64)
        ensures
            n == self.spec_header().spec_count(),
    {
        self.header.count()
    }

    /// Gives up the file for its image, for the caller to dispose of.
    pub fn destroy(self) -> (data: Vec<u8>)
        ensures
            data@ == self.spec_bytes(),
    {
        self.bytes()
    }

    /// Writes `e` at `now`. An entry that only repeats what the last two
    /// entries say takes the place of the last one, and the header stays as
    /// it is; any other entry is added and counted.
    pub fn append(&mut self, e: &E, now: u64) -> (w: Written)
        requires
            old(self).wf(),
        ensures
            final(self).wf(),
            final(self).spec_name() == old(self).spec_name(),
            final(self).spec_entries() == with_entry(old(self).spec_entries(), *e),
            repeats(old(self).spec_entries(), *e) ==> w == Written::ReplacedLast && final(self).spec_header() == old(self).spec_header(),
            !repeats(old(self).spec_entries(), *e) ==> w == Written::Appended && final(self).spec_header() == old(self).spec_header().spec_inc(now),
    {
        let n: usize = self.entries.len();
        if n >= 2 && self.entries[n - 1].same(&self.entries[n - 2]) && self.entries[n - 2].same(e) {
            self.entries[n - 1] = e.copy();
            Written::ReplacedLast
        } else {
            self.entries.push(e.copy());
            let grown: usize = self.entries.len();
            proof {
                self.header.lemma_header(now);
                assert(self.header.spec_count() + 1 == grown);
            }
            self.header.inc(now);
            Written::Appended
        }
    }

    /// The entry with index `pos`.
    pub fn read_at(&self, pos: usize) -> (r: Result<E, TrackFileError>)
        requires
            self.wf(),
        ensures
            pos < self.spec_entries().len() ==> r is Ok && r->Ok_0 == self.spec_entries()[pos as int],
            pos >= self.spec_entries().len() ==> r is Err && r->Err_0@
                == TrackFileErrorView::IndexError(pos),
    {
        if pos >= self.entries.len() {
            Err(TrackFileError::IndexError(pos))
        } else {
            Ok(self.entries[pos].copy())
        }
    }

    /// Up to `len` entries from index `pos` on: no more than there are, and
    /// none where `pos` lies behind the last entry.
    pub fn read_multiple_at(&self, pos: usize, len: usize) -> (r: Vec<E>)
        requires
            self.wf(),
        ensures
            r@ == self.spec_entries().subrange(
                if pos >= self.spec_entries().len() {
                    0
                } else {
                    pos as int
                },
                if pos >= self.spec_entries().len() {
                    0
                } else {
                    pos + clipped(self.spec_entries().len() as int, pos as int, len as int)
                },
            ),
            r@.len() == clipped(self.spec_entries().len() as int, pos as int, len as int),
    {
        let count: usize = self.entries.len();
        let mut r: Vec<E> = Vec::new();
        if pos >= count {
            assert(r@ =~= self.spec_entries().subrange(0, 0));
            return r;
        }
        let take: usize = if len > count - pos { count - pos } else { len };
        let mut i: usize = 0;
        while i < take
            invariant
                i <= take,
                pos + take <= count == self.entries@.len(),
                r@ == self.entries@.subrange(pos as int, pos + i),
            decreases take - i,
        {
            r.push(self.entries[pos + i].copy());
            i += 1;
            assert(r@ =~= self.entries@.subrange(pos as int, pos + i));
        }
        r
    }

    /// All entries, in the order in which they were written.
    pub fn read_all(&self) -> (r: Vec<E>)
        requires
            self.wf(),
        ensures
            r@ == self.spec_entries(),
    {
        let mut r: Vec<E> = Vec::new();
        let mut i: usize = 0;
        while i < self.entries.len()
            invariant
                i <= self.entries@.len(),
                r@ == self.entries@.subrange(0, i as int),
            decreases self.entries@.len() - i,
        {
            r.push(self.entries[i].copy());
            i += 1;
            assert(r@ =~= self.entries@.subrange(0, i as int));
        }
        assert(self.entries@.subrange(0, i as int) =~= self.entries@);
        r
    }
}

/// Writing an entry that repeats the last two leaves the number of entries
/// as it is; writing any other entry adds one. Either way the entry written
/// is the last one afterwards, and the entries before the last one stay.
pub proof fn lemma_with_entry<E: TrackEntry>(entries: Seq<E>, e: E)
    ensures
        repeats(entries, e) ==> with_entry(entries, e).len() == entries.len(),
        !repeats(entries, e) ==> with_entry(entries, e).len() == entries.len() + 1,
        with_entry(entries, e).last() == e,
        forall|i: int|
            0 <= i < with_entry(entries, e).len() - 1 ==> #[trigger] with_entry(entries, e)[i]
                == entries[i],
{
}

} // verus!
