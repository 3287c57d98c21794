//! The hex editor: a buffer of bytes beside the bytes as they were last
//! loaded or saved, a page of 256 bytes in view, a hex-byte search and a
//! list of the bytes that differ from the saved ones.

use vstd::prelude::*;
use crate::hex_text::hex_byte;
use crate::hex_text::query_bytes;
use crate::hex_text::typed_byte;
use crate::hex_text::search_bytes;
use crate::hex_text::parse_hex_byte;
use crate::hex_text::text_cell_byte;

verus! {

/// Bytes on one page of the editor.
pub const PAGE_SIZE: usize = 256;

/// Bytes on one row of a page.
pub const ROW_SIZE: usize = 16;

/// How many changed bytes the list of changes shows.
pub const DIFF_LIST_LIMIT: usize = 100;

/// `needle` occurs in `hay` at index `i`.
pub open spec fn matches_at(hay: Seq<u8>, needle: Seq<u8>, i: int) -> bool {
    0 <= i && i + needle.len() <= hay.len() && hay.subrange(i, i + needle.len()) == needle
}

/// `r` is where `needle` first occurs in `hay`, or `None` when it occurs
/// nowhere.
pub open spec fn is_first_match(hay: Seq<u8>, needle: Seq<u8>, r: Option<usize>) -> bool {
    match r {
        Some(i) => matches_at(hay, needle, i as int) && forall|j: int|
            0 <= j < i ==> !#[trigger] matches_at(hay, needle, j),
        None => forall|j: int| !#[trigger] matches_at(hay, needle, j),
    }
}

/// Where the first occurrence of `needle` in `hay` starts, if any; the
/// first window of `hay` of the needle's length that equals it.
pub fn find_window(hay: &Vec<u8>, needle: &Vec<u8>) -> (r: Option<usize>)
    requires
        needle.len() > 0,
    ensures
        is_first_match(hay@, needle@, r),
        r matches Some(i) ==> i + needle@.len() <= hay@.len() && forall|m: int|
            0 <= m < needle@.len() ==> #[trigger] hay@[i + m] == needle@[m],
        r matches Some(i) ==> forall|j: int|
            0 <= j < i ==> #[trigger] hay@.subrange(j, j + needle@.len()) != needle@,
        r is None ==> forall|j: int|
            0 <= j && j + needle@.len() <= hay@.len() ==> #[trigger] hay@.subrange(
                j,
                j + needle@.len(),
            ) != needle@,
{
    let r = first_window(hay, needle);
    proof {
        lemma_first_match_means(hay@, needle@);
    }
    r
}

fn first_window(hay: &Vec<u8>, needle: &Vec<u8>) -> (r: Option<usize>)
    requires
        needle.len() > 0,
    ensures
        is_first_match(hay@, needle@, r),
{
    let n = needle.len();
    if n > hay.len() {
        return None;
    }
    let last = hay.len() - n;
    let mut i: usize = 0;
    while i <= last
        invariant
            n == needle.len(),
            n <= hay.len(),
            last == hay.len() - n,
            i <= last + 1,
            forall|j: int| 0 <= j < i ==> !#[trigger] matches_at(hay@, needle@, j),
        decreases last + 1 - i,
    {
        let mut k: usize = 0;
        let mut same = true;
        while k < n
            invariant
                n == needle.len(),
                i <= last,
                last == hay.len() - n,
                k <= n,
                same == forall|m: int| 0 <= m < k ==> hay@[i + m] == needle@[m],
            decreases n - k,
        {
            if hay[i + k] != needle[k] {
                same = false;
            }
            k = k + 1;
        }
        if same {
            assert(hay@.subrange(i as int, i + n) =~= needle@);
            return Some(i);
        }
        assert(!matches_at(hay@, needle@, i as int)) by {
            let m = choose|m: int| 0 <= m < n && hay@[i + m] != needle@[m];
            if hay@.subrange(i as int, i + n) == needle@ {
                assert(hay@.subrange(i as int, i + n)[m] == hay@[i + m]);
            }
        }
        i = i + 1;
    }
    assert forall|j: int| !#[trigger] matches_at(hay@, needle@, j) by {
        if 0 <= j < i {
        }
    }
    None
}

/// The differing bytes among the first `n` positions of `cur` and `orig`:
/// `(offset, saved byte, current byte)` for each offset where they differ,
/// by increasing offset.
pub open spec fn diff_entries(cur: Seq<u8>, orig: Seq<u8>, n: int) -> Seq<(usize, u8, u8)>
    decreases n,
{
    if n <= 0 {
        Seq::empty()
    } else if cur[n - 1] != orig[n - 1] {
        diff_entries(cur, orig, n - 1).push(((n - 1) as usize, orig[n - 1], cur[n - 1]))
    } else {
        diff_entries(cur, orig, n - 1)
    }
}

/// The smaller of two lengths: how far two buffers are compared.
pub open spec fn common_len(a: Seq<u8>, b: Seq<u8>) -> int {
    if a.len() < b.len() {
        a.len() as int
    } else {
        b.len() as int
    }
}

/// The bytes where `cur` differs from `orig`, over the length they share.
pub open spec fn changed_bytes(cur: Seq<u8>, orig: Seq<u8>) -> Seq<(usize, u8, u8)> {
    diff_entries(cur, orig, common_len(cur, orig))
}

/// Lists `(offset, saved byte, current byte)` for every offset, up to the
/// shorter length, where `cur` differs from `orig`.
pub fn diff_bytes(cur: &Vec<u8>, orig: &Vec<u8>) -> (r: Vec<(usize, u8, u8)>)
    ensures
        r@ == changed_bytes(cur@, orig@),
        forall|i: int|
            0 <= i < cur@.len() && i < orig@.len() && cur@[i] != orig@[i] ==> exists|k: int|
                0 <= k < r@.len() && #[trigger] r@[k] == (i as usize, orig@[i], cur@[i]),
        forall|k: int|
            0 <= k < r@.len() ==> {
                let e = #[trigger] r@[k];
                &&& e.0 < cur@.len()
                &&& e.0 < orig@.len()
                &&& e.1 == orig@[e.0 as int]
                &&& e.2 == cur@[e.0 as int]
                &&& e.1 != e.2
            },
        forall|k1: int, k2: int|
            0 <= k1 < k2 < r@.len() ==> (#[trigger] r@[k1]).0 < (#[trigger] r@[k2]).0,
{
    let n = if cur.len() < orig.len() {
        cur.len()
    } else {
        orig.len()
    };
    let mut out: Vec<(usize, u8, u8)> = Vec::new();
    let mut i: usize = 0;
    while i < n
        invariant
            n as int == common_len(cur@, orig@),
            i <= n,
            out@ == diff_entries(cur@, orig@, i as int),
        decreases n - i,
    {
        if cur[i] != orig[i] {
            out.push((i, orig[i], cur[i]));
        }
        i = i + 1;
    }
    proof {
        lemma_changes_listed(cur@, orig@);
    }
    out
}

/// The page offset after "Next Page": one page on, when that page still
/// starts inside the buffer.
pub open spec fn next_page_offset(offset: int, len: int) -> int {
    if offset + 256 < len {
        offset + 256
    } else {
        offset
    }
}

/// The page offset after "Prev Page": one page back, but not below 0.
pub open spec fn prev_page_offset(offset: int) -> int {
    if offset >= 256 {
        offset - 256
    } else {
        0
    }
}

/// Where the page that starts at `offset` ends in a buffer of `len` bytes.
pub open spec fn page_end(offset: int, len: int) -> int {
    if offset + 256 < len {
        offset + 256
    } else {
        len
    }
}

/// The start of the page that holds offset `idx`.
pub open spec fn page_start(idx: int) -> int {
    (idx / 256) * 256
}

/// The editor's state as the contracts see it.
pub struct EditorState {
    pub bytes: Seq<u8>,
    pub original_bytes: Seq<u8>,
    pub search_query: Seq<char>,
    pub selected_index: Option<usize>,
    pub file_path: Option<Seq<char>>,
    pub page_offset: usize,
    pub diffs: Option<Seq<(usize, u8, u8)>>,
}

/// What every state of the editor keeps: pages start at multiples of 256,
/// and the buffer is as long as the saved bytes.
pub open spec fn editor_invariant(s: EditorState) -> bool {
    s.page_offset % 256 == 0 && s.bytes.len() == s.original_bytes.len()
}

/// The hex editor tab.
pub struct HexEditorTab {
    bytes: Vec<u8>,
    original_bytes: Vec<u8>,
    search_query: String,
    selected_index: Option<usize>,
    file_path: Option<String>,
    page_offset: usize,
    diffs: Option<Vec<(usize, u8, u8)>>,
}

impl View for HexEditorTab {
    type V = EditorState;

    closed spec fn view(&self) -> EditorState {
        EditorState {
            bytes: self.bytes@,
            original_bytes: self.original_bytes@,
            search_query: self.search_query@,
            selected_index: self.selected_index,
            file_path: match self.file_path {
                Some(p) => Some(p@),
                None => None,
            },
            page_offset: self.page_offset,
            diffs: match self.diffs {
                Some(d) => Some(d@),
                None => None,
            },
        }
    }
}

impl Default for HexEditorTab {
    fn default() -> (r: Self)
        ensures
            r@.bytes == Seq::<u8>::empty(),
            r@.original_bytes == Seq::<u8>::empty(),
            r@.search_query == Seq::<char>::empty(),
            r@.selected_index is None,
            r@.file_path is None,
            r@.page_offset == 0,
            r@.diffs is None,
            editor_invariant(r@),
    {
        HexEditorTab {
            bytes: Vec::new(),
            original_bytes: Vec::new(),
            search_query: String::new(),
            selected_index: None,
            file_path: None,
            page_offset: 0,
            diffs: None,
        }
    }
}

impl HexEditorTab {
    /// The bytes being edited.
    pub fn bytes(&self) -> (r: &Vec<u8>)
        ensures
            r@ == self@.bytes,
    {
        &self.bytes
    }

    /// The bytes as they were last loaded or saved.
    pub fn original_bytes(&self) -> (r: &Vec<u8>)
        ensures
            r@ == self@.original_bytes,
    {
        &self.original_bytes
    }

    /// The text of the search box.
    pub fn search_query(&self) -> (r: &String)
        ensures
            r@ == self@.search_query,
    {
        &self.search_query
    }

    /// Where the last search found its bytes.
    pub fn selected_index(&self) -> (r: Option<usize>)
        ensures
            r == self@.selected_index,
    {
        self.selected_index
    }

    /// The path of the open file, if one is open.
    pub fn file_path(&self) -> (r: Option<&String>)
        ensures
            r matches Some(p) ==> self@.file_path == Some(p@),
            r is None ==> self@.file_path is None,
    {
        match &self.file_path {
            Some(p) => Some(p),
            None => None,
        }
    }

    /// Where the page in view starts.
    pub fn page_offset(&self) -> (r: usize)
        ensures
            r == self@.page_offset,
    {
        self.page_offset
    }

    /// The list of changed bytes on show, if any.
    pub fn diffs(&self) -> (r: Option<&Vec<(usize, u8, u8)>>)
        ensures
            r matches Some(d) ==> self@.diffs == Some(d@),
            r is None ==> self@.diffs is None,
    {
        match &self.diffs {
            Some(d) => Some(d),
            None => None,
        }
    }

    /// Replaces the text of the search box.
    pub fn set_search_query(&mut self, query: String)
        ensures
            final(self)@ == (EditorState { search_query: query@, ..old(self)@ }),
            editor_invariant(old(self)@) ==> editor_invariant(final(self)@),
    {
        self.search_query = query;
    }

    /// A file was read: its bytes become both the buffer and the saved
    /// bytes, the view goes to the first page, the search result and the
    /// list of changes are dropped.
    pub fn open_loaded(&mut self, path: String, data: Vec<u8>)
        ensures
            final(self)@ == (EditorState {
                bytes: data@,
                original_bytes: data@,
                search_query: old(self)@.search_query,
                selected_index: None,
                file_path: Some(path@),
                page_offset: 0,
                diffs: None,
            }),
            editor_invariant(final(self)@),
    {
        self.original_bytes = data.clone();
        self.bytes = data;
        self.file_path = Some(path);
        self.page_offset = 0;
        self.selected_index = None;
        self.diffs = None;
    }

    /// Reading a file failed: no file is open any more, both buffers are
    /// emptied and the list of changes is dropped; the page offset and the
    /// search result stay as they were.
    pub fn open_failed(&mut self)
        ensures
            final(self)@ == (EditorState {
                bytes: Seq::empty(),
                original_bytes: Seq::empty(),
                file_path: None,
                diffs: None,
                ..old(self)@
            }),
            editor_invariant(old(self)@) ==> editor_invariant(final(self)@),
    {
        self.file_path = None;
        self.bytes.clear();
        self.original_bytes.clear();
        self.diffs = None;
    }

    /// "Prev Page".
    pub fn prev_page(&mut self)
        ensures
            final(self)@ == (EditorState {
                page_offset: prev_page_offset(old(self)@.page_offset as int) as usize,
                ..old(self)@
            }),
            editor_invariant(old(self)@) ==> editor_invariant(final(self)@),
            old(self)@.page_offset >= 256 ==> final(self)@.page_offset == old(self)@.page_offset - 256,
            old(self)@.page_offset < 256 ==> final(self)@.page_offset == 0,
    {
        proof {
            lemma_prev_page_moves_back(old(self)@.page_offset as int);
        }
        self.page_offset = self.page_offset.saturating_sub(PAGE_SIZE);
    }

    /// "Next Page".
    pub fn next_page(&mut self)
        ensures
            final(self)@ == (EditorState {
                page_offset: next_page_offset(
                    old(self)@.page_offset as int,
                    old(self)@.bytes.len() as int,
                ) as usize,
                ..old(self)@
            }),
            editor_invariant(old(self)@) ==> editor_invariant(final(self)@),
            old(self)@.page_offset + 256 < old(self)@.bytes.len() ==> final(self)@.page_offset
                == old(self)@.page_offset + 256,
            old(self)@.page_offset + 256 >= old(self)@.bytes.len() ==> final(self)@.page_offset
                == old(self)@.page_offset,
    {
        proof {
            lemma_next_page_moves_on(old(self)@.page_offset as int, old(self)@.bytes.len() as int);
        }
        let len = self.bytes.len();
        if self.page_offset < len && len - self.page_offset > PAGE_SIZE {
            self.page_offset = self.page_offset + PAGE_SIZE;
        }
    }

    /// The first and one-past-last offset of the page in view, for the
    /// "Showing bytes" line.
    pub fn page_bounds(&self) -> (r: (usize, usize))
        ensures
            r.0 == self@.page_offset,
            r.1 == page_end(self@.page_offset as int, self@.bytes.len() as int),
            r.1 == vstd::math::min(self@.page_offset + 256, self@.bytes.len() as int),
            self@.page_offset <= self@.bytes.len() ==> r.1 - r.0 == vstd::math::min(
                256,
                self@.bytes.len() - self@.page_offset,
            ),
    {
        proof {
            lemma_page_holds_up_to_256(self@.page_offset as int, self@.bytes.len() as int);
        }
        let len = self.bytes.len();
        if self.page_offset < len && len - self.page_offset > PAGE_SIZE {
            (self.page_offset, self.page_offset + PAGE_SIZE)
        } else {
            (self.page_offset, len)
        }
    }

    /// The rows of the page in view, each as its first and one-past-last
    /// offset: 16 bytes a row, the last row shorter when the page is.
    pub fn page_rows(&self) -> (r: Vec<(usize, usize)>)
        requires
            self@.page_offset <= self@.bytes.len(),
        ensures
            ({
                let start = self@.page_offset as int;
                let end = page_end(start, self@.bytes.len() as int);
                &&& r@.len() == (end - start + 15) / 16
                &&& forall|k: int|
                    0 <= k < r@.len() ==> (#[trigger] r@[k]).0 == start + 16 * k && r@[k].1 == (
                    if start + 16 * k + 16 < end {
                        start + 16 * k + 16
                    } else {
                        end
                    })
            }),
            ({
                let start = self@.page_offset as int;
                let len = self@.bytes.len() as int;
                &&& r@.len() == (vstd::math::min(256, len - start) + 15) / 16
                &&& r@.len() > 0 ==> r@.last().1 == vstd::math::min(start + 256, len)
                &&& forall|k: int| 0 <= k < r@.len() ==> (#[trigger] r@[k]).0 == start + 16 * k
            }),
    {
        proof {
            lemma_page_holds_up_to_256(self@.page_offset as int, self@.bytes.len() as int);
        }
        let (start, end) = self.page_bounds();
        let mut rows: Vec<(usize, usize)> = Vec::new();
        let mut row_start = start;
        while row_start < end
            invariant
                start <= end <= start + 256,
                row_start == (if start + 16 * rows@.len() < end as int {
                    start + 16 * rows@.len()
                } else {
                    end as int
                }),
                rows@.len() == 0 || start + 16 * (rows@.len() - 1) < end,
                forall|k: int|
                    0 <= k < rows@.len() ==> (#[trigger] rows@[k]).0 == start + 16 * k && rows@[k].1
                        == (if start + 16 * k + 16 < end as int {
                        start + 16 * k + 16
                    } else {
                        end as int
                    }),
            decreases end - row_start,
        {
            let row_end = if end - row_start > ROW_SIZE {
                row_start + ROW_SIZE
            } else {
                end
            };
            rows.push((row_start, row_end));
            row_start = row_end;
        }
        rows
    }

    /// "Find": reads the search box as hex bytes; when it names at least
    /// one byte, selects the first place where they occur and turns to the
    /// page that holds it (the page stays when they occur nowhere); when it
    /// names none, clears the selection.
    pub fn find(&mut self)
        ensures
            ({
                let needle = query_bytes(old(self)@.search_query);
                if needle.len() == 0 {
                    final(self)@ == (EditorState { selected_index: None, ..old(self)@ })
                } else {
                    &&& is_first_match(old(self)@.bytes, needle, final(self)@.selected_index)
                    &&& final(self)@ == (EditorState {
                        selected_index: final(self)@.selected_index,
                        page_offset: match final(self)@.selected_index {
                            Some(i) => page_start(i as int) as usize,
                            None => old(self)@.page_offset,
                        },
                        ..old(self)@
                    })
                }
            }),
            editor_invariant(old(self)@) ==> editor_invariant(final(self)@),
    {
        let needle = search_bytes(self.search_query.as_str());
        if needle.len() > 0 {
            let found = find_window(&self.bytes, &needle);
            self.selected_index = found;
            match found {
                Some(idx) => {
                    self.page_offset = (idx / PAGE_SIZE) * PAGE_SIZE;
                },
                None => {},
            }
        } else {
            self.selected_index = None;
        }
    }

    /// A hex cell was edited to `text`: when the text reads as a byte in
    /// base 16 the byte at `index` becomes it, otherwise nothing changes.
    pub fn edit_hex(&mut self, index: usize, text: &str)
        requires
            index < old(self)@.bytes.len(),
        ensures
            final(self)@ == (EditorState {
                bytes: match hex_byte(text@) {
                    Some(v) => old(self)@.bytes.update(index as int, v),
                    None => old(self)@.bytes,
                },
                ..old(self)@
            }),
            editor_invariant(old(self)@) ==> editor_invariant(final(self)@),
    {
        match parse_hex_byte(text) {
            Some(v) => {
                self.bytes.set(index, v);
            },
            None => {},
        }
    }

    /// A cell of the text column was edited to `text`: the byte at `index`
    /// becomes the low eight bits of its first character, if it has one.
    pub fn edit_text(&mut self, index: usize, text: &str)
        requires
            index < old(self)@.bytes.len(),
        ensures
            final(self)@ == (EditorState {
                bytes: match typed_byte(text@) {
                    Some(v) => old(self)@.bytes.update(index as int, v),
                    None => old(self)@.bytes,
                },
                ..old(self)@
            }),
            editor_invariant(old(self)@) ==> editor_invariant(final(self)@),
            text@.len() > 0 ==> final(self)@.bytes == old(self)@.bytes.update(
                index as int,
                (text@[0] as int % 256) as u8,
            ),
            text@.len() == 0 ==> final(self)@.bytes == old(self)@.bytes,
    {
        match text_cell_byte(text) {
            Some(v) => {
                self.bytes.set(index, v);
            },
            None => {},
        }
    }

    /// The buffer was written to the file: it becomes the saved bytes and
    /// the list of changes is dropped.
    pub fn mark_saved(&mut self)
        ensures
            final(self)@ == (EditorState {
                original_bytes: old(self)@.bytes,
                diffs: None,
                ..old(self)@
            }),
            editor_invariant(old(self)@) ==> editor_invariant(final(self)@),
    {
        self.original_bytes = self.bytes.clone();
        self.diffs = None;
    }

    /// "Show Binary Diff": lists the bytes that differ from the saved ones.
    pub fn show_diff(&mut self)
        ensures
            final(self)@ == (EditorState {
                diffs: Some(changed_bytes(old(self)@.bytes, old(self)@.original_bytes)),
                ..old(self)@
            }),
            editor_invariant(old(self)@) ==> editor_invariant(final(self)@),
    {
        self.diffs = Some(diff_bytes(&self.bytes, &self.original_bytes));
    }

    /// "Clear Diff".
    pub fn clear_diff(&mut self)
        ensures
            final(self)@ == (EditorState { diffs: None, ..old(self)@ }),
            editor_invariant(old(self)@) ==> editor_invariant(final(self)@),
    {
        self.diffs = None;
    }
}

/// A search has at most one answer: the first match is unique.
pub proof fn lemma_first_match_unique(
    hay: Seq<u8>,
    needle: Seq<u8>,
    r1: Option<usize>,
    r2: Option<usize>,
)
    requires
        is_first_match(hay, needle, r1),
        is_first_match(hay, needle, r2),
    ensures
        r1 == r2,
{
    match (r1, r2) {
        (Some(i), Some(j)) => {
            if i < j {
                assert(!matches_at(hay, needle, i as int));
            } else if j < i {
                assert(!matches_at(hay, needle, j as int));
            }
        },
        (Some(i), None) => {
            assert(!matches_at(hay, needle, i as int));
        },
        (None, Some(j)) => {
            assert(!matches_at(hay, needle, j as int));
        },
        (None, None) => {},
    }
}

/// The page that a search turns to holds the offset it found, and starts
/// at a multiple of 256.
pub proof fn lemma_found_offset_on_page(idx: int)
    requires
        idx >= 0,
    ensures
        page_start(idx) <= idx < page_start(idx) + 256,
        page_start(idx) % 256 == 0,
        page_start(idx) >= 0,
{
}

/// Turning a page forward and then back returns to the page one started
/// from, whenever the forward turn moved at all; a forward turn that moves
/// lands inside the buffer.
pub proof fn lemma_next_then_prev(offset: int, len: int)
    requires
        offset >= 0,
        next_page_offset(offset, len) != offset,
    ensures
        prev_page_offset(next_page_offset(offset, len)) == offset,
        next_page_offset(offset, len) < len,
{
}

/// Turning a page back and then forward returns to the page one started
/// from, when that page is not the first and starts inside the buffer.
pub proof fn lemma_prev_then_next(offset: int, len: int)
    requires
        offset >= 256,
        offset < len,
    ensures
        next_page_offset(prev_page_offset(offset), len) == offset,
{
}

/// The list of changes holds exactly the offsets, below the shared length,
/// where the buffers differ, by increasing offset, each with the saved and
/// the current byte.
pub proof fn lemma_diff_entries_exact(cur: Seq<u8>, orig: Seq<u8>, n: int)
    requires
        0 <= n <= cur.len(),
        n <= orig.len(),
        n <= usize::MAX,
    ensures
        forall|k: int|
            0 <= k < diff_entries(cur, orig, n).len() ==> {
                let e = #[trigger] diff_entries(cur, orig, n)[k];
                &&& 0 <= e.0 < n
                &&& e.1 == orig[e.0 as int]
                &&& e.2 == cur[e.0 as int]
                &&& e.1 != e.2
            },
        forall|k1: int, k2: int|
            0 <= k1 < k2 < diff_entries(cur, orig, n).len() ==> (#[trigger] diff_entries(
                cur,
                orig,
                n,
            )[k1]).0 < (#[trigger] diff_entries(cur, orig, n)[k2]).0,
        forall|i: int|
            0 <= i < n && #[trigger] cur[i] != orig[i] ==> exists|k: int|
                0 <= k < diff_entries(cur, orig, n).len() && (#[trigger] diff_entries(
                    cur,
                    orig,
                    n,
                )[k]).0 == i,
    decreases n,
{
    if n > 0 {
        lemma_diff_entries_exact(cur, orig, n - 1);
        let prev = diff_entries(cur, orig, n - 1);
        let all = diff_entries(cur, orig, n);
        if cur[n - 1] != orig[n - 1] {
            assert(all == prev.push(((n - 1) as usize, orig[n - 1], cur[n - 1])));
            assert forall|k: int| 0 <= k < prev.len() implies #[trigger] all[k] == prev[k] by {}
            assert forall|i: int| 0 <= i < n && #[trigger] cur[i] != orig[i] implies exists|k: int|
                0 <= k < all.len() && (#[trigger] all[k]).0 == i by {
                if i == n - 1 {
                    assert(all[prev.len() as int].0 == i);
                } else {
                    let k = choose|k: int| 0 <= k < prev.len() && (#[trigger] prev[k]).0 == i;
                    assert(all[k] == prev[k]);
                }
            }
        }
    }
}

/// There is nothing to list when the buffers agree over the length they
/// share, and only then.
pub proof fn lemma_no_changes_iff_same(cur: Seq<u8>, orig: Seq<u8>)
    requires
        cur.len() <= usize::MAX,
    ensures
        changed_bytes(cur, orig).len() == 0 <==> forall|i: int|
            0 <= i < common_len(cur, orig) ==> #[trigger] cur[i] == orig[i],
{
    let n = common_len(cur, orig);
    lemma_diff_entries_exact(cur, orig, n);
    if changed_bytes(cur, orig).len() == 0 {
        assert forall|i: int| 0 <= i < n implies #[trigger] cur[i] == orig[i] by {
            if cur[i] != orig[i] {
                let k = choose|k: int|
                    0 <= k < changed_bytes(cur, orig).len() && (#[trigger] changed_bytes(
                        cur,
                        orig,
                    )[k]).0 == i;
            }
        }
    } else {
        let e = changed_bytes(cur, orig)[0];
        assert(cur[e.0 as int] != orig[e.0 as int]);
    }
}

/// Right after the buffer was saved, the list of changes is empty.
pub proof fn lemma_saved_buffer_has_no_changes(bytes: Seq<u8>)
    requires
        bytes.len() <= usize::MAX,
    ensures
        changed_bytes(bytes, bytes) == Seq::<(usize, u8, u8)>::empty(),
{
    lemma_no_changes_iff_same(bytes, bytes);
}

/// Every offset, below both lengths, where the current byte differs from
/// the saved one is listed with the saved and the current byte, and every
/// listed entry is such an offset; the entries come by increasing offset.
pub proof fn lemma_changes_listed(cur: Seq<u8>, orig: Seq<u8>)
    requires
        cur.len() <= usize::MAX,
    ensures
        forall|i: int|
            0 <= i < cur.len() && i < orig.len() && cur[i] != orig[i] ==> exists|k: int|
                0 <= k < changed_bytes(cur, orig).len() && #[trigger] changed_bytes(cur, orig)[k]
                    == (i as usize, orig[i], cur[i]),
        forall|k: int|
            0 <= k < changed_bytes(cur, orig).len() ==> {
                let e = #[trigger] changed_bytes(cur, orig)[k];
                &&& e.0 < cur.len()
                &&& e.0 < orig.len()
                &&& e.1 == orig[e.0 as int]
                &&& e.2 == cur[e.0 as int]
                &&& e.1 != e.2
            },
        forall|k1: int, k2: int|
            0 <= k1 < k2 < changed_bytes(cur, orig).len() ==> (#[trigger] changed_bytes(
                cur,
                orig,
            )[k1]).0 < (#[trigger] changed_bytes(cur, orig)[k2]).0,
        changed_bytes(cur, orig).len() == 0 <==> forall|i: int|
            0 <= i < cur.len() && i < orig.len() ==> #[trigger] cur[i] == orig[i],
{
    let n = common_len(cur, orig);
    lemma_diff_entries_exact(cur, orig, n);
    let d = changed_bytes(cur, orig);
    assert forall|i: int|
        0 <= i < cur.len() && i < orig.len() && cur[i] != orig[i] implies exists|k: int|
        0 <= k < d.len() && #[trigger] d[k] == (i as usize, orig[i], cur[i]) by {
        assert(0 <= i < n && cur[i] != orig[i]);
        let k = choose|k: int| 0 <= k < d.len() && (#[trigger] d[k]).0 == i;
        assert(d[k] == (i as usize, orig[i], cur[i]));
    }
    if d.len() == 0 {
        assert forall|i: int| 0 <= i < cur.len() && i < orig.len() implies #[trigger] cur[i]
            == orig[i] by {
            if cur[i] != orig[i] {
                let k = choose|k: int| 0 <= k < d.len() && #[trigger] d[k] == (i as usize, orig[i], cur[i]);
            }
        }
    } else {
        let e = d[0];
        assert(cur[e.0 as int] != orig[e.0 as int]);
    }
}

/// The page in view ends at the page offset plus 256 or at the end of the
/// buffer, whichever comes first: it holds 256 bytes, or the rest of the
/// buffer when fewer are left.
pub proof fn lemma_page_holds_up_to_256(offset: int, len: int)
    ensures
        page_end(offset, len) == vstd::math::min(offset + 256, len),
        0 <= offset <= len ==> page_end(offset, len) - offset == vstd::math::min(256, len - offset),
{
}

/// "Next Page" moves exactly 256 bytes on when the next page starts inside
/// the buffer, and stays otherwise.
pub proof fn lemma_next_page_moves_on(offset: int, len: int)
    ensures
        offset + 256 < len ==> next_page_offset(offset, len) == offset + 256,
        offset + 256 >= len ==> next_page_offset(offset, len) == offset,
{
}

/// "Prev Page" moves exactly 256 bytes back when that is possible, and to
/// the start otherwise.
pub proof fn lemma_prev_page_moves_back(offset: int)
    requires
        offset >= 0,
    ensures
        offset >= 256 ==> prev_page_offset(offset) == offset - 256,
        offset < 256 ==> prev_page_offset(offset) == 0,
{
}

/// What a search answer means over the bytes themselves: at the offset
/// found the window equals the needle byte for byte; the window at every
/// earlier offset, and at every offset when nothing is found, differs from
/// the needle.
pub proof fn lemma_first_match_means(hay: Seq<u8>, needle: Seq<u8>)
    ensures
        forall|r: Option<usize>|
            #[trigger] is_first_match(hay, needle, r) ==> match r {
                Some(i) => {
                    &&& i + needle.len() <= hay.len()
                    &&& forall|m: int| 0 <= m < needle.len() ==> #[trigger] hay[i + m] == needle[m]
                    &&& forall|j: int|
                        0 <= j < i ==> #[trigger] hay.subrange(j, j + needle.len()) != needle
                },
                None => forall|j: int|
                    0 <= j && j + needle.len() <= hay.len() ==> #[trigger] hay.subrange(
                        j,
                        j + needle.len(),
                    ) != needle,
            },
{
    assert forall|r: Option<usize>| #[trigger] is_first_match(hay, needle, r) implies match r {
        Some(i) => {
            &&& i + needle.len() <= hay.len()
            &&& forall|m: int| 0 <= m < needle.len() ==> #[trigger] hay[i + m] == needle[m]
            &&& forall|j: int| 0 <= j < i ==> #[trigger] hay.subrange(j, j + needle.len()) != needle
        },
        None => forall|j: int|
            0 <= j && j + needle.len() <= hay.len() ==> #[trigger] hay.subrange(j, j + needle.len())
                != needle,
    } by {
        match r {
            Some(i) => {
                assert forall|m: int| 0 <= m < needle.len() implies #[trigger] hay[i + m] == needle[m] by {
                    assert(hay.subrange(i as int, i + needle.len())[m] == hay[i + m]);
                }
                assert forall|j: int| 0 <= j < i implies #[trigger] hay.subrange(j, j + needle.len())
                    != needle by {
                    assert(!matches_at(hay, needle, j));
                }
            },
            None => {
                assert forall|j: int| 0 <= j && j + needle.len() <= hay.len() implies #[trigger] hay.subrange(
                    j,
                    j + needle.len(),
                ) != needle by {
                    assert(!matches_at(hay, needle, j));
                }
            },
        }
    }
}

} // verus!
