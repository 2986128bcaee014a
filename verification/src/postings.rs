//! The postings cache: a memoized read-through accessor over the index's
//! postings, turning a word, a word prefix or a phrase into a decoded
//! document-id set, decoding each distinct key at most once per query.
//!
//! Absence of an entry is a valid outcome — the key occurs in no document —
//! and is distinguished from a decode failure, which aborts the query.

use vstd::prelude::*;
use roaring::RoaringBitmap;
use crate::bitmap::{bitmap_clone, bitmap_decode, bitmap_deserialize, bitmap_new, bitmap_set};
use crate::error::SearchError;
use crate::query::{seq_view, Phrase};

verus! {

/// One postings entry: a key and the serialized bitmap of the documents that
/// hold it.
pub struct PostingEntry {
    pub key: String,
    pub bytes: Vec<u8>,
}

pub struct PostingEntryV {
    pub key: Seq<char>,
    pub bytes: Seq<u8>,
}

impl View for PostingEntry {
    type V = PostingEntryV;

    open spec fn view(&self) -> PostingEntryV {
        PostingEntryV { key: self.key@, bytes: self.bytes@ }
    }
}

/// One phrase entry: the ordered words of the phrase and the serialized
/// bitmap of the documents that hold them contiguously and in order.
pub struct PhraseEntry {
    pub words: Vec<String>,
    pub bytes: Vec<u8>,
}

pub struct PhraseEntryV {
    pub words: Seq<Seq<char>>,
    pub bytes: Seq<u8>,
}

impl View for PhraseEntry {
    type V = PhraseEntryV;

    open spec fn view(&self) -> PhraseEntryV {
        PhraseEntryV { words: seq_view(self.words@), bytes: self.bytes@ }
    }
}

/// A point-in-time snapshot of the on-disk postings: word, word-prefix and
/// phrase tables, each a list of entries with their encoded document sets.
pub struct PostingsIndex {
    pub words: Vec<PostingEntry>,
    pub prefixes: Vec<PostingEntry>,
    pub phrases: Vec<PhraseEntry>,
}

pub struct PostingsIndexV {
    pub words: Seq<PostingEntryV>,
    pub prefixes: Seq<PostingEntryV>,
    pub phrases: Seq<PhraseEntryV>,
}

impl View for PostingsIndex {
    type V = PostingsIndexV;

    open spec fn view(&self) -> PostingsIndexV {
        PostingsIndexV {
            words: self.words@.map_values(|e: PostingEntry| e@),
            prefixes: self.prefixes@.map_values(|e: PostingEntry| e@),
            phrases: self.phrases@.map_values(|e: PhraseEntry| e@),
        }
    }
}

/// The bytes stored under a key, looking from position `i` on: the first
/// entry whose key matches.
pub open spec fn lookup_from(entries: Seq<PostingEntryV>, key: Seq<char>, i: int) -> Option<
    Seq<u8>,
>
    decreases entries.len() - i,
{
    if i < 0 || i >= entries.len() {
        None
    } else if entries[i].key == key {
        Some(entries[i].bytes)
    } else {
        lookup_from(entries, key, i + 1)
    }
}

/// The bytes stored under a phrase, looking from position `i` on.
pub open spec fn phrase_lookup_from(
    entries: Seq<PhraseEntryV>,
    words: Seq<Seq<char>>,
    i: int,
) -> Option<Seq<u8>>
    decreases entries.len() - i,
{
    if i < 0 || i >= entries.len() {
        None
    } else if entries[i].words == words {
        Some(entries[i].bytes)
    } else {
        phrase_lookup_from(entries, words, i + 1)
    }
}

/// The documents holding a word: none stored means the empty set; stored
/// bytes decode to the set, or fail.
pub open spec fn word_posting(idx: PostingsIndexV, w: Seq<char>) -> Option<Set<u32>> {
    match lookup_from(idx.words, w, 0) {
        None => Some(Set::<u32>::empty()),
        Some(bytes) => bitmap_decode(bytes),
    }
}

/// The documents holding a word prefix, as `word_posting`.
pub open spec fn prefix_posting(idx: PostingsIndexV, w: Seq<char>) -> Option<Set<u32>> {
    match lookup_from(idx.prefixes, w, 0) {
        None => Some(Set::<u32>::empty()),
        Some(bytes) => bitmap_decode(bytes),
    }
}

/// The documents holding a phrase, as `word_posting`.
pub open spec fn phrase_posting(idx: PostingsIndexV, words: Seq<Seq<char>>) -> Option<Set<u32>> {
    match phrase_lookup_from(idx.phrases, words, 0) {
        None => Some(Set::<u32>::empty()),
        Some(bytes) => bitmap_decode(bytes),
    }
}

/// Compares two string vectors element by element.
#[verifier::loop_isolation(false)]
pub fn string_vec_eq(a: &Vec<String>, b: &Vec<String>) -> (r: bool)
    ensures
        r == (seq_view(a@) == seq_view(b@)),
{
    if a.len() != b.len() {
        proof {
            assert(seq_view(a@).len() != seq_view(b@).len());
        }
        return false;
    }
    let mut i: usize = 0;
    while i < a.len()
        invariant
            i <= a.len(),
            a@.len() == b@.len(),
            forall|j: int| 0 <= j < i ==> seq_view(a@)[j] == seq_view(b@)[j],
        decreases a.len() - i,
    {
        if !(a[i] == b[i]) {
            proof {
                assert(seq_view(a@)[i as int] != seq_view(b@)[i as int]);
            }
            return false;
        }
        i = i + 1;
    }
    proof {
        assert(seq_view(a@) =~= seq_view(b@));
    }
    true
}

/// Memoized read-through cache over a postings snapshot: each table has a
/// parallel list of decoded bitmaps, filled on first access.
pub struct DbCache {
    index: PostingsIndex,
    word_docids: Vec<Option<RoaringBitmap>>,
    prefix_docids: Vec<Option<RoaringBitmap>>,
    phrase_docids: Vec<Option<RoaringBitmap>>,
}

/// A memo list is consistent with its table when every decoded slot holds
/// exactly what the stored bytes decode to.
pub open spec fn memo_ok(entries: Seq<PostingEntryV>, memo: Seq<Option<RoaringBitmap>>) -> bool {
    &&& memo.len() == entries.len()
    &&& forall|i: int|
        0 <= i < memo.len() && memo[i] is Some ==> bitmap_decode(entries[i].bytes) == Some(
            bitmap_set((#[trigger] memo[i])->0),
        )
}

pub open spec fn phrase_memo_ok(
    entries: Seq<PhraseEntryV>,
    memo: Seq<Option<RoaringBitmap>>,
) -> bool {
    &&& memo.len() == entries.len()
    &&& forall|i: int|
        0 <= i < memo.len() && memo[i] is Some ==> bitmap_decode(entries[i].bytes) == Some(
            bitmap_set((#[trigger] memo[i])->0),
        )
}

/// Builds a list of empty memo slots.
#[verifier::loop_isolation(false)]
fn none_vec(n: usize) -> (r: Vec<Option<RoaringBitmap>>)
    ensures
        r@.len() == n,
        forall|i: int| 0 <= i < n ==> (#[trigger] r@[i]) is None,
{
    let mut r: Vec<Option<RoaringBitmap>> = Vec::new();
    let mut i: usize = 0;
    while i < n
        invariant
            i <= n,
            r@.len() == i,
            forall|j: int| 0 <= j < i ==> (#[trigger] r@[j]) is None,
        decreases n - i,
    {
        r.push(None);
        i = i + 1;
    }
    r
}

impl DbCache {
    /// The snapshot this cache reads from.
    pub closed spec fn index_view(&self) -> PostingsIndexV {
        self.index@
    }

    pub closed spec fn wf(&self) -> bool {
        &&& memo_ok(self.index@.words, self.word_docids@)
        &&& memo_ok(self.index@.prefixes, self.prefix_docids@)
        &&& phrase_memo_ok(self.index@.phrases, self.phrase_docids@)
    }

    /// Takes ownership of a postings snapshot; nothing is decoded yet.
    pub fn new(index: PostingsIndex) -> (r: DbCache)
        ensures
            r.wf(),
            r.index_view() == index@,
    {
        let nw = index.words.len();
        let np = index.prefixes.len();
        let nf = index.phrases.len();
        DbCache {
            index,
            word_docids: none_vec(nw),
            prefix_docids: none_vec(np),
            phrase_docids: none_vec(nf),
        }
    }

    /// The documents holding `word` exactly: `Ok(None)` when the word is
    /// absent from the corpus, the decoded set when present, an error when
    /// its stored bytes are corrupt.
    #[verifier::loop_isolation(false)]
    pub fn get_word_docids(&mut self, word: &String) -> (r: Result<
        Option<RoaringBitmap>,
        SearchError,
    >)
        requires
            old(self).wf(),
        ensures
            final(self).wf(),
            final(self).index_view() == old(self).index_view(),
            ({
                let entries = old(self).index_view().words;
                match r {
                    Ok(opt) => match opt {
                        Some(b) => word_posting(old(self).index_view(), word@) == Some(
                            bitmap_set(b),
                        ) && lookup_from(entries, word@, 0) is Some,
                        None => lookup_from(entries, word@, 0) is None,
                    },
                    Err(e) => e == SearchError::Decoding && word_posting(
                        old(self).index_view(),
                        word@,
                    ) is None,
                }
            }),
    {
        let ghost entries = self.index@.words;
        let mut i: usize = 0;
        while i < self.index.words.len()
            invariant
                self == old(self),
                i <= self.index.words.len(),
                entries == self.index@.words,
                lookup_from(entries, word@, 0) == lookup_from(entries, word@, i as int),
            decreases self.index.words.len() - i,
        {
            if self.index.words[i].key == *word {
                let bytes_dec: Option<RoaringBitmap>;
                let hit = self.word_docids[i].is_some();
                if hit {
                    match &self.word_docids[i] {
                        Some(b) => {
                            return Ok(Some(bitmap_clone(b)));
                        },
                        None => {
                            proof {
                                assert(false);
                            }
                        },
                    }
                }
                bytes_dec = bitmap_deserialize(&self.index.words[i].bytes);
                match bytes_dec {
                    Some(b) => {
                        let copy = bitmap_clone(&b);
                        self.word_docids[i] = Some(b);
                        return Ok(Some(copy));
                    },
                    None => {
                        return Err(SearchError::Decoding);
                    },
                }
            }
            i = i + 1;
        }
        Ok(None)
    }

    /// The documents holding a word prefix, as `get_word_docids`.
    #[verifier::loop_isolation(false)]
    pub fn get_prefix_docids(&mut self, prefix: &String) -> (r: Result<
        Option<RoaringBitmap>,
        SearchError,
    >)
        requires
            old(self).wf(),
        ensures
            final(self).wf(),
            final(self).index_view() == old(self).index_view(),
            ({
                let entries = old(self).index_view().prefixes;
                match r {
                    Ok(opt) => match opt {
                        Some(b) => prefix_posting(old(self).index_view(), prefix@) == Some(
                            bitmap_set(b),
                        ) && lookup_from(entries, prefix@, 0) is Some,
                        None => lookup_from(entries, prefix@, 0) is None,
                    },
                    Err(e) => e == SearchError::Decoding && prefix_posting(
                        old(self).index_view(),
                        prefix@,
                    ) is None,
                }
            }),
    {
        let ghost entries = self.index@.prefixes;
        let mut i: usize = 0;
        while i < self.index.prefixes.len()
            invariant
                self == old(self),
                i <= self.index.prefixes.len(),
                entries == self.index@.prefixes,
                lookup_from(entries, prefix@, 0) == lookup_from(entries, prefix@, i as int),
            decreases self.index.prefixes.len() - i,
        {
            if self.index.prefixes[i].key == *prefix {
                let hit = self.prefix_docids[i].is_some();
                if hit {
                    match &self.prefix_docids[i] {
                        Some(b) => {
                            return Ok(Some(bitmap_clone(b)));
                        },
                        None => {
                            proof {
                                assert(false);
                            }
                        },
                    }
                }
                let bytes_dec = bitmap_deserialize(&self.index.prefixes[i].bytes);
                match bytes_dec {
                    Some(b) => {
                        let copy = bitmap_clone(&b);
                        self.prefix_docids[i] = Some(b);
                        return Ok(Some(copy));
                    },
                    None => {
                        return Err(SearchError::Decoding);
                    },
                }
            }
            i = i + 1;
        }
        Ok(None)
    }

    /// The documents holding a phrase contiguously and in order; phrase
    /// resolution is a single atomic lookup with no typo tolerance.
    #[verifier::loop_isolation(false)]
    pub fn get_phrase_docids(&mut self, phrase: &Phrase) -> (r: Result<
        Option<RoaringBitmap>,
        SearchError,
    >)
        requires
            old(self).wf(),
        ensures
            final(self).wf(),
            final(self).index_view() == old(self).index_view(),
            ({
                let entries = old(self).index_view().phrases;
                match r {
                    Ok(opt) => match opt {
                        Some(b) => phrase_posting(old(self).index_view(), phrase@.words) == Some(
                            bitmap_set(b),
                        ) && phrase_lookup_from(entries, phrase@.words, 0) is Some,
                        None => phrase_lookup_from(entries, phrase@.words, 0) is None,
                    },
                    Err(e) => e == SearchError::Decoding && phrase_posting(
                        old(self).index_view(),
                        phrase@.words,
                    ) is None,
                }
            }),
    {
        let ghost entries = self.index@.phrases;
        let mut i: usize = 0;
        while i < self.index.phrases.len()
            invariant
                self == old(self),
                i <= self.index.phrases.len(),
                entries == self.index@.phrases,
                phrase_lookup_from(entries, phrase@.words, 0) == phrase_lookup_from(
                    entries,
                    phrase@.words,
                    i as int,
                ),
            decreases self.index.phrases.len() - i,
        {
            if string_vec_eq(&self.index.phrases[i].words, &phrase.words) {
                let hit = self.phrase_docids[i].is_some();
                if hit {
                    match &self.phrase_docids[i] {
                        Some(b) => {
                            return Ok(Some(bitmap_clone(b)));
                        },
                        None => {
                            proof {
                                assert(false);
                            }
                        },
                    }
                }
                let bytes_dec = bitmap_deserialize(&self.index.phrases[i].bytes);
                match bytes_dec {
                    Some(b) => {
                        let copy = bitmap_clone(&b);
                        self.phrase_docids[i] = Some(b);
                        return Ok(Some(copy));
                    },
                    None => {
                        return Err(SearchError::Decoding);
                    },
                }
            }
            i = i + 1;
        }
        Ok(None)
    }
}

/// Resolves a phrase to its documents: the decoded phrase entry, or the
/// empty set when the phrase is stored nowhere.
pub fn resolve_phrase(cache: &mut DbCache, phrase: &Phrase) -> (r: Result<
    RoaringBitmap,
    SearchError,
>)
    requires
        old(cache).wf(),
    ensures
        final(cache).wf(),
        final(cache).index_view() == old(cache).index_view(),
        match r {
            Ok(b) => phrase_posting(old(cache).index_view(), phrase@.words) == Some(
                bitmap_set(b),
            ),
            Err(e) => e == SearchError::Decoding && phrase_posting(
                old(cache).index_view(),
                phrase@.words,
            ) is None,
        },
{
    match cache.get_phrase_docids(phrase) {
        Ok(Some(b)) => Ok(b),
        Ok(None) => Ok(bitmap_new()),
        Err(e) => Err(e),
    }
}

} // verus!
