//! A line of the text buffer: its string and, for each grapheme, where it starts, how many
//! bytes it takes and how many columns it is wide.
use vstd::prelude::*;
use crate::strings::{
    push_char, str_get, string_drain, string_insert, string_insert_str,
    string_replace_range,
};
use vstd::string::StringExecFns;
use crate::unicode::{
    byte_offset, char_at_byte, display_width, grapheme_indices, grapheme_split, is_boundary,
    lemma_byte_offset_end, lemma_byte_offset_strict, lemma_char_at_byte, lemma_utf8_len_concat,
    str_width, utf8_len,
};

verus! {

/// For each grapheme of `s`: its byte index, its byte length and its display width.
pub open spec fn grapheme_entries(s: Seq<char>) -> Seq<(usize, usize, usize)> {
    let c = grapheme_split(s);
    Seq::new(
        c.len(),
        |i: int| (utf8_len(c.take(i).flatten()) as usize, utf8_len(c[i]) as usize, display_width(c[i])),
    )
}

/// The graphemes of `s` are non-empty and make up `s`.
pub open spec fn segmented(s: Seq<char>) -> bool {
    &&& grapheme_split(s).flatten() == s
    &&& forall|i: int| 0 <= i < grapheme_split(s).len() ==> (#[trigger] grapheme_split(s)[i]).len() > 0
}

/// Character index where grapheme `i` of `s` starts.
pub open spec fn grapheme_start(s: Seq<char>, i: int) -> int {
    grapheme_split(s).take(i).flatten().len() as int
}

/// Total display width of the clusters.
pub open spec fn clusters_width(c: Seq<Seq<char>>) -> nat
    decreases c.len(),
{
    if c.len() == 0 {
        0
    } else {
        clusters_width(c.drop_last()) + display_width(c.last()) as nat
    }
}

/// A line in the text buffer
#[derive(Debug)]
pub struct BufferLine {
    /// The content of the line
    content: String,
    /// Data about graphemes in the line (byte_index, byte_length, width)
    grapheme_data: Vec<(usize, usize, usize)>,
}

impl View for BufferLine {
    type V = Seq<char>;

    closed spec fn view(&self) -> Seq<char> {
        self.content@
    }
}

/// The grapheme data of `content`.
fn entries_of(content: &String) -> (r: Vec<(usize, usize, usize)>)
    ensures
        r@ == grapheme_entries(content@),
        segmented(content@),
        utf8_len(content@) <= usize::MAX,
{
    let total = content.as_str().as_bytes().len();
    proof {
        assert(utf8_len(content@) == total);
    }
    let parts = grapheme_indices(content.as_str());
    let ghost c = grapheme_split(content@);
    let mut data: Vec<(usize, usize, usize)> = Vec::new();
    let mut i: usize = 0;
    while i < parts.len()
        invariant
            i <= parts@.len(),
            c == grapheme_split(content@),
            parts@.len() == c.len(),
            forall|j: int| 0 <= j < parts@.len() ==> #[trigger] parts@[j].1@ == c[j],
            forall|j: int| 0 <= j < parts@.len() ==> #[trigger] parts@[j].0 == utf8_len(c.take(j).flatten()),
            data@.len() == i,
            forall|j: int| 0 <= j < i ==> #[trigger] data@[j] == grapheme_entries(content@)[j],
        decreases parts@.len() - i,
    {
        let cluster = parts[i].1.as_str();
        let entry = (parts[i].0, cluster.len(), str_width(cluster));
        data.push(entry);
        i = i + 1;
    }
    proof {
        assert(data@ =~= grapheme_entries(content@));
        assert(parts@.map_values(|p: (usize, String)| p.1@) =~= c);
    }
    data
}

/// The prefix of the graphemes' concatenation up to grapheme `i` is their first `i` graphemes.
proof fn lemma_flatten_take(c: Seq<Seq<char>>, i: int)
    requires
        0 <= i <= c.len(),
    ensures
        c.flatten().take(c.take(i).flatten().len() as int) == c.take(i).flatten(),
        c.flatten() == c.take(i).flatten() + c.skip(i).flatten(),
{
    assert(c =~= c.take(i) + c.skip(i));
    vstd::seq_lib::lemma_flatten_concat(c.take(i), c.skip(i));
    assert(c.flatten().take(c.take(i).flatten().len() as int) =~= c.take(i).flatten());
}

/// Where a grapheme of a segmented string starts, in bytes and in characters.
proof fn lemma_grapheme_start(s: Seq<char>, i: int)
    requires
        segmented(s),
        0 <= i <= grapheme_split(s).len(),
    ensures
        0 <= grapheme_start(s, i) <= s.len(),
        byte_offset(s, grapheme_start(s, i)) == utf8_len(grapheme_split(s).take(i).flatten()),
        is_boundary(s, utf8_len(grapheme_split(s).take(i).flatten()) as int),
        char_at_byte(s, utf8_len(grapheme_split(s).take(i).flatten()) as int) == grapheme_start(s, i),
{
    let c = grapheme_split(s);
    lemma_flatten_take(c, i);
    vstd::seq_lib::lemma_flatten_concat(c.take(i), c.skip(i));
    lemma_char_at_byte(s, grapheme_start(s, i));
}

/// Graphemes start one after the other.
proof fn lemma_grapheme_start_step(s: Seq<char>, i: int)
    requires
        segmented(s),
        0 <= i < grapheme_split(s).len(),
    ensures
        grapheme_start(s, i + 1) == grapheme_start(s, i) + grapheme_split(s)[i].len(),
        grapheme_split(s).take(i + 1).flatten() == grapheme_split(s).take(i).flatten() + grapheme_split(s)[i],
        s.subrange(grapheme_start(s, i), grapheme_start(s, i + 1)) == grapheme_split(s)[i],
        grapheme_start(s, i) < grapheme_start(s, i + 1),
{
    let c = grapheme_split(s);
    assert(c.take(i + 1) =~= c.take(i).push(c[i]));
    c.take(i).lemma_flatten_push(c[i]);
    lemma_flatten_take(c, i + 1);
    lemma_flatten_take(c, i);
    let a = c.take(i).flatten();
    let b = c.take(i + 1).flatten();
    assert(s.take(b.len() as int) == b);
    assert(s.subrange(a.len() as int, b.len() as int) =~= b.subrange(a.len() as int, b.len() as int));
    assert(b.subrange(a.len() as int, b.len() as int) =~= c[i]);
}

/// Graphemes start at strictly increasing character and byte indices.
proof fn lemma_grapheme_start_strict(s: Seq<char>, i: int, j: int)
    requires
        segmented(s),
        0 <= i < j <= grapheme_split(s).len(),
    ensures
        grapheme_start(s, i) < grapheme_start(s, j),
        utf8_len(grapheme_split(s).take(i).flatten()) < utf8_len(grapheme_split(s).take(j).flatten()),
    decreases j - i,
{
    lemma_grapheme_start_step(s, j - 1);
    if i < j - 1 {
        lemma_grapheme_start_strict(s, i, j - 1);
    }
    lemma_grapheme_start(s, i);
    lemma_grapheme_start(s, j);
    lemma_byte_offset_strict(s, grapheme_start(s, i), grapheme_start(s, j));
}

impl BufferLine {
    #[verifier::type_invariant]
    closed spec fn consistent(self) -> bool {
        &&& segmented(self.content@)
        &&& utf8_len(self.content@) <= usize::MAX
        &&& self.grapheme_data@ == grapheme_entries(self.content@)
    }

    /// Creates a new buffer line from string
    pub fn new(content: String) -> (r: Self)
        ensures
            r@ == content@,
    {
        let grapheme_data = entries_of(&content);
        BufferLine { content, grapheme_data }
    }

    /// Replaces the content, recalculating the grapheme data.
    fn set_content(&mut self, content: String)
        ensures
            final(self)@ == content@,
    {
        let grapheme_data = entries_of(&content);
        *self = BufferLine { content, grapheme_data };
    }

    /// The graphemes of the line, in order.
    pub fn graphemes(&self) -> (r: Vec<String>)
        ensures
            r@.len() == grapheme_split(self@).len(),
            forall|i: int| 0 <= i < r@.len() ==> #[trigger] r@[i]@ == grapheme_split(self@)[i],
    {
        let parts = grapheme_indices(self.content.as_str());
        let mut out: Vec<String> = Vec::new();
        let mut i: usize = 0;
        while i < parts.len()
            invariant
                i <= parts@.len(),
                parts@.len() == grapheme_split(self@).len(),
                forall|j: int| 0 <= j < parts@.len() ==> #[trigger] parts@[j].1@ == grapheme_split(self@)[j],
                out@.len() == i,
                forall|j: int| 0 <= j < i ==> #[trigger] out@[j]@ == grapheme_split(self@)[j],
            decreases parts@.len() - i,
        {
            out.push(parts[i].1.clone());
            i = i + 1;
        }
        out
    }

    /// The graphemes of the line with the byte index where each starts.
    pub fn grapheme_indices(&self) -> (r: Vec<(usize, String)>)
        ensures
            r@.len() == grapheme_split(self@).len(),
            forall|i: int| 0 <= i < r@.len() ==> #[trigger] r@[i].1@ == grapheme_split(self@)[i],
            forall|i: int| 0 <= i < r@.len() ==> #[trigger] r@[i].0 == grapheme_entries(self@)[i].0,
    {
        grapheme_indices(self.content.as_str())
    }

    /// Reference to the line content
    pub fn content(&self) -> (r: &str)
        ensures
            r@ == self@,
            utf8_len(self@) <= usize::MAX,
    {
        proof {
            use_type_invariant(self);
        }
        self.content.as_str()
    }

    /// Consumes self and returns the line content
    pub fn into_content(self) -> (r: String)
        ensures
            r@ == self@,
    {
        self.content
    }

    /// Returns the grapheme data for the line, each tuple contains:
    /// - `byte_index` - the byte index of the grapheme in the line
    /// - `byte_length` - the byte length of the grapheme
    /// - `width` - the visual/column width of the grapheme
    pub fn grapheme_data(&self) -> (r: &[(usize, usize, usize)])
        ensures
            r@ == grapheme_entries(self@),
            (r@.len() == 0) == (self@.len() == 0),
            r@.len() > 0 ==> r@[0].0 == 0,
            forall|k: int| 0 <= k < r@.len() - 1 ==> #[trigger] r@[k + 1].0 == r@[k].0 + r@[k].1,
            r@.len() > 0 ==> r@[r@.len() - 1].0 + r@[r@.len() - 1].1 == utf8_len(self@),
    {
        proof {
            use_type_invariant(self);
            lemma_entries_consecutive(self@);
        }
        self.grapheme_data.as_slice()
    }

    /// Returns the number of graphemes in the line
    /// **Not** the same as the `colume width`
    pub fn count(&self) -> (r: usize)
        ensures
            r == grapheme_split(self@).len(),
    {
        proof {
            use_type_invariant(self);
        }
        self.grapheme_data.len()
    }

    /// The column width of the line, or `None` when it cannot be counted in a `usize`.
    pub fn checked_width(&self) -> (r: Option<usize>)
        ensures
            r == if clusters_width(grapheme_split(self@)) <= usize::MAX {
                Some(clusters_width(grapheme_split(self@)) as usize)
            } else {
                None::<usize>
            },
    {
        proof {
            use_type_invariant(self);
        }
        let ghost c = grapheme_split(self@);
        let mut total: usize = 0;
        let mut i: usize = 0;
        while i < self.grapheme_data.len()
            invariant
                i <= c.len(),
                c == grapheme_split(self@),
                self.grapheme_data@ == grapheme_entries(self@),
                total == clusters_width(c.take(i as int)),
            decreases c.len() - i,
        {
            proof {
                assert(c.take(i + 1).drop_last() =~= c.take(i as int));
                lemma_clusters_width_monotone(c, i + 1);
            }
            let w = self.grapheme_data[i].2;
            if w > usize::MAX - total {
                return None;
            }
            total = total + w;
            i = i + 1;
        }
        proof {
            assert(c.take(i as int) =~= c);
        }
        Some(total)
    }

    /// Returns the column width of the line, calculated from grapheme data
    /// **Not** the same as the `grapheme count`
    pub fn width(&self) -> (r: usize)
        requires
            clusters_width(grapheme_split(self@)) <= usize::MAX,
        ensures
            r == clusters_width(grapheme_split(self@)),
    {
        proof {
            use_type_invariant(self);
        }
        let ghost c = grapheme_split(self@);
        let mut total: usize = 0;
        let mut i: usize = 0;
        while i < self.grapheme_data.len()
            invariant
                i <= c.len(),
                c == grapheme_split(self@),
                self.grapheme_data@ == grapheme_entries(self@),
                clusters_width(c) <= usize::MAX,
                total == clusters_width(c.take(i as int)),
            decreases c.len() - i,
        {
            proof {
                assert(c.take(i + 1).drop_last() =~= c.take(i as int));
                lemma_clusters_width_monotone(c, i + 1);
            }
            total = total + self.grapheme_data[i].2;
            i = i + 1;
        }
        proof {
            assert(c.take(i as int) =~= c);
        }
        total
    }

    /// Returns byte index of the grapheme at the given index, None if the index is out of bounds
    pub fn grapheme_to_byte_index(&self, grapheme_index: usize) -> (r: Option<usize>)
        ensures
            r == if grapheme_index < grapheme_split(self@).len() {
                Some(grapheme_entries(self@)[grapheme_index as int].0)
            } else {
                None::<usize>
            },
    {
        proof {
            use_type_invariant(self);
        }
        if grapheme_index < self.grapheme_data.len() {
            Some(self.grapheme_data[grapheme_index].0)
        } else {
            None
        }
    }

    /// Returns grapheme index for the byte index, None if the byte index is out of bounds or not a
    /// grapheme start
    pub fn byte_to_grapheme_index(&self, byte_index: usize) -> (r: Option<usize>)
        ensures
            match r {
                Some(i) => i < grapheme_split(self@).len() && grapheme_entries(self@)[i as int].0 == byte_index,
                None => forall|i: int| 0 <= i < grapheme_split(self@).len() ==> #[trigger] grapheme_entries(self@)[i].0 != byte_index,
            },
            forall|i: int|
                0 <= i < grapheme_split(self@).len() && #[trigger] grapheme_entries(self@)[i].0 == byte_index ==> r
                    == Some(i as usize),
    {
        proof {
            use_type_invariant(self);
        }
        let mut i: usize = 0;
        while i < self.grapheme_data.len()
            invariant
                i <= self.grapheme_data@.len(),
                self.grapheme_data@ == grapheme_entries(self@),
                segmented(self@),
                utf8_len(self@) <= usize::MAX,
                forall|j: int| 0 <= j < i ==> #[trigger] grapheme_entries(self@)[j].0 != byte_index,
            decreases self.grapheme_data@.len() - i,
        {
            if self.grapheme_data[i].0 == byte_index {
                proof {
                    let s = self@;
                    assert forall|j: int|
                        0 <= j < grapheme_split(s).len() && #[trigger] grapheme_entries(s)[j].0 == byte_index implies j == i by {
                        lemma_prefix_bytes(s, j);
                        lemma_prefix_bytes(s, i as int);
                        if j < i {
                            lemma_grapheme_start_strict(s, j, i as int);
                        } else if i < j {
                            lemma_grapheme_start_strict(s, i as int, j);
                        }
                    }
                }
                return Some(i);
            }
            i = i + 1;
        }
        None
    }
}

/// The bytes of the first graphemes are at most the bytes of the whole string.
proof fn lemma_prefix_bytes(s: Seq<char>, i: int)
    requires
        segmented(s),
        0 <= i <= grapheme_split(s).len(),
    ensures
        utf8_len(grapheme_split(s).take(i).flatten()) <= utf8_len(s),
{
    let c = grapheme_split(s);
    lemma_flatten_take(c, i);
    lemma_utf8_len_concat(c.take(i).flatten(), c.skip(i).flatten());
}

/// The grapheme data of a line covers its bytes in order: there is none exactly when the line
/// is empty, the first grapheme starts at byte 0, each next one starts where the one before
/// ends, and the last one ends at the line's length in bytes.
pub proof fn lemma_entries_consecutive(s: Seq<char>)
    requires
        segmented(s),
        utf8_len(s) <= usize::MAX,
    ensures
        (grapheme_entries(s).len() == 0) == (s.len() == 0),
        grapheme_entries(s).len() > 0 ==> grapheme_entries(s)[0].0 == 0,
        forall|k: int|
            0 <= k < grapheme_entries(s).len() - 1 ==> #[trigger] grapheme_entries(s)[k + 1].0 == grapheme_entries(s)[k].0
                + grapheme_entries(s)[k].1,
        grapheme_entries(s).len() > 0 ==> grapheme_entries(s)[grapheme_entries(s).len() - 1].0
            + grapheme_entries(s)[grapheme_entries(s).len() - 1].1 == utf8_len(s),
{
    let c = grapheme_split(s);
    let d = grapheme_entries(s);
    let n = c.len() as int;
    assert forall|k: int| 0 <= k < n implies utf8_len(c.take(k + 1).flatten()) == utf8_len(c.take(k).flatten())
        + utf8_len(c[k]) && utf8_len(c.take(k + 1).flatten()) <= utf8_len(s) by {
        assert(c.take(k + 1) =~= c.take(k).push(c[k]));
        c.take(k).lemma_flatten_push(c[k]);
        lemma_utf8_len_concat(c.take(k).flatten(), c[k]);
        lemma_prefix_bytes(s, k + 1);
    }
    assert forall|k: int| 0 <= k < d.len() - 1 implies #[trigger] d[k + 1].0 == d[k].0 + d[k].1 by {
        lemma_prefix_bytes(s, k);
        lemma_prefix_bytes(s, k + 1);
    }
    if n > 0 {
        assert(c.take(0) =~= Seq::<Seq<char>>::empty());
        assert(c.take(0).flatten() =~= Seq::<char>::empty());
        lemma_utf8_len_concat(Seq::<char>::empty(), s);
        assert(Seq::<char>::empty() + s =~= s);
        assert(c.take(n) =~= c);
        lemma_prefix_bytes(s, n - 1);
        assert(s.len() > 0) by {
            lemma_flatten_take(c, 1);
            assert(c.take(1) =~= seq![c[0]]);
            c.take(0).lemma_flatten_push(c[0]);
            assert(c.take(0).push(c[0]) =~= seq![c[0]]);
            assert(c[0].len() > 0);
        }
    } else {
        assert(c =~= Seq::<Seq<char>>::empty());
        assert(s == c.flatten());
    }
}

/// Widths of prefixes of the clusters grow with the prefix.
proof fn lemma_clusters_width_monotone(c: Seq<Seq<char>>, k: int)
    requires
        0 <= k <= c.len(),
    ensures
        clusters_width(c.take(k)) <= clusters_width(c),
    decreases c.len() - k,
{
    if k < c.len() {
        lemma_clusters_width_monotone(c, k + 1);
        assert(c.take(k + 1).drop_last() =~= c.take(k));
    } else {
        assert(c.take(k) =~= c);
    }
}

impl BufferLine {
    /// Replaces a **byte** range in the line with a new string
    pub fn replace_range(&mut self, range: core::ops::Range<usize>, replace_with: &str)
        requires
            range.start <= range.end,
            is_boundary(old(self)@, range.start as int),
            is_boundary(old(self)@, range.end as int),
        ensures
            final(self)@ == old(self)@.take(char_at_byte(old(self)@, range.start as int)) + replace_with@
                + old(self)@.skip(char_at_byte(old(self)@, range.end as int)),
    {
        let mut content = self.content.clone();
        string_replace_range(&mut content, range.start, range.end, replace_with);
        self.set_content(content);
    }

    /// Removes a slice from this line at the specified **byte** range, and returns it.
    pub fn remove_range(&mut self, range: core::ops::Range<usize>) -> (r: String)
        requires
            range.start <= range.end,
            is_boundary(old(self)@, range.start as int),
            is_boundary(old(self)@, range.end as int),
        ensures
            (r@, final(self)@) == removed(old(self)@, range.start as int, range.end as int),
    {
        let mut content = self.content.clone();
        let removed = string_drain(&mut content, range.start, range.end);
        self.set_content(content);
        removed
    }

    /// Removes a grapheme at the specified **grapheme** index, and returns it.
    pub fn remove(&mut self, grapheme_index: usize) -> (r: String)
        requires
            grapheme_index < grapheme_split(old(self)@).len(),
        ensures
            r@ == grapheme_split(old(self)@)[grapheme_index as int],
            final(self)@ == old(self)@.take(grapheme_start(old(self)@, grapheme_index as int)) + old(self)@.skip(
                grapheme_start(old(self)@, grapheme_index + 1),
            ),
    {
        proof {
            use_type_invariant(&*self);
        }
        let ghost s = self@;
        let ghost i = grapheme_index as int;
        let (start, length, _) = self.grapheme_data[grapheme_index];
        proof {
            let c = grapheme_split(s);
            lemma_grapheme_start(s, i);
            lemma_grapheme_start(s, i + 1);
            lemma_grapheme_start_step(s, i);
            lemma_utf8_len_concat(c.take(i).flatten(), c[i]);
            lemma_byte_offset_end(s);
            if i + 1 < c.len() {
                lemma_grapheme_start_strict(s, i + 1, c.len() as int);
            }
            assert(c.take(c.len() as int) =~= c);
            vstd::utf8::encode_utf8_valid_utf8(s);
        }
        let end = start + length;
        proof {
            assert(end == utf8_len(grapheme_split(s).take(i + 1).flatten()));
        }
        let mut content = self.content.clone();
        let removed = string_drain(&mut content, start, end);
        self.set_content(content);
        proof {
            lemma_grapheme_start_step(s, i);
        }
        removed
    }

    /// Inserts a string at the specified byte index
    pub fn insert_str(&mut self, index: usize, string: &str)
        requires
            is_boundary(old(self)@, index as int),
        ensures
            final(self)@ == inserted(old(self)@, index as int, string@),
    {
        let mut content = self.content.clone();
        string_insert_str(&mut content, index, string);
        self.set_content(content);
    }

    /// Inserts a character at the specified byte index
    pub fn insert(&mut self, index: usize, char: char)
        requires
            is_boundary(old(self)@, index as int),
        ensures
            final(self)@ == old(self)@.take(char_at_byte(old(self)@, index as int)).push(char) + old(self)@.skip(
                char_at_byte(old(self)@, index as int),
            ),
    {
        let mut content = self.content.clone();
        string_insert(&mut content, index, char);
        self.set_content(content);
    }

    /// Pushes a string to the end of the line
    pub fn push_str(&mut self, string: &str)
        ensures
            final(self)@ == old(self)@ + string@,
    {
        let mut content = self.content.clone();
        content.append(string);
        self.set_content(content);
    }

    /// Pushes a character to the end of the line
    pub fn push(&mut self, char: char)
        ensures
            final(self)@ == old(self)@.push(char),
    {
        let mut content = self.content.clone();
        push_char(&mut content, char);
        self.set_content(content);
    }

    /// Returns a slice of the line content based on the specified grapheme range (end exclusive).
    pub fn slice(&self, start: usize, end: usize) -> (r: Option<&str>)
        ensures
            ({
                let count = grapheme_split(self@).len();
                let end_char = if end >= count { self@.len() as int } else { grapheme_start(self@, end as int) };
                &&& r is Some <==> start < count && (end >= count || start <= end)
                &&& r matches Some(t) ==> t@ == self@.subrange(grapheme_start(self@, start as int), end_char)
            }),
    {
        proof {
            use_type_invariant(self);
        }
        let ghost s = self@;
        let ghost count = grapheme_split(s).len() as int;
        let start_byte = match self.grapheme_to_byte_index(start) {
            Some(b) => b,
            None => return None,
        };
        let end_byte = if end >= self.count() {
            self.content.as_str().len()
        } else {
            match self.grapheme_to_byte_index(end) {
                Some(b) => b,
                None => return None,
            }
        };
        proof {
            let c = grapheme_split(s);
            assert(c.take(count) =~= c);
            lemma_byte_offset_end(s);
            lemma_char_at_byte(s, s.len() as int);
            lemma_grapheme_start(s, start as int);
            lemma_grapheme_start(s, count);
            lemma_prefix_bytes(s, start as int);
            assert(start_byte == utf8_len(c.take(start as int).flatten()));
            let end_g = if end >= count { count } else { end as int };
            lemma_grapheme_start(s, end_g);
            lemma_prefix_bytes(s, end_g);
            assert(end_byte == utf8_len(c.take(end_g).flatten()));
            assert(grapheme_start(s, count) == s.len());
            if start < end_g {
                lemma_grapheme_start_strict(s, start as int, end_g);
            } else if end_g < start {
                lemma_grapheme_start_strict(s, end_g, start as int);
            }
            assert(char_at_byte(s, start_byte as int) == grapheme_start(s, start as int));
            assert(char_at_byte(s, end_byte as int) == grapheme_start(s, end_g));
        }
        str_get(self.content.as_str(), start_byte, end_byte)
    }
}

impl Default for BufferLine {
    fn default() -> (r: Self)
        ensures
            r@ == Seq::<char>::empty(),
    {
        BufferLine::new(String::new())
    }
}

impl Clone for BufferLine {
    fn clone(&self) -> (r: Self)
        ensures
            r@ == self@,
    {
        BufferLine::new(self.content.clone())
    }
}

impl BufferLine {
    /// The byte index where grapheme `g` starts, or the line's byte length when there is no
    /// such grapheme: the character boundary before grapheme `g` (or at the end).
    pub(crate) fn grapheme_byte_or_end(&self, g: usize) -> (r: usize)
        ensures
            is_boundary(self@, r as int),
            char_at_byte(self@, r as int) == if g < grapheme_split(self@).len() {
                grapheme_start(self@, g as int)
            } else {
                self@.len() as int
            },
    {
        proof {
            use_type_invariant(self);
        }
        let ghost s = self@;
        let n = self.grapheme_data.len();
        if g < n {
            proof {
                lemma_grapheme_start(s, g as int);
                lemma_prefix_bytes(s, g as int);
            }
            self.grapheme_data[g].0
        } else {
            proof {
                lemma_byte_offset_end(s);
                lemma_char_at_byte(s, s.len() as int);
            }
            self.content.as_str().len()
        }
    }
}

/// The line `s` after inserting `t` at byte index `b` (as `insert_str` does).
pub open spec fn inserted(s: Seq<char>, b: int, t: Seq<char>) -> Seq<char> {
    s.take(char_at_byte(s, b)) + t + s.skip(char_at_byte(s, b))
}

/// The text removed from `s` between byte indices `start` and `end`, and the line left (as
/// `remove_range` does).
pub open spec fn removed(s: Seq<char>, start: int, end: int) -> (Seq<char>, Seq<char>) {
    (
        s.subrange(char_at_byte(s, start), char_at_byte(s, end)),
        s.take(char_at_byte(s, start)) + s.skip(char_at_byte(s, end)),
    )
}

/// Removing the bytes just inserted undoes the insertion: after `insert_str(b, t)` at a
/// character boundary `b`, the bytes from `b` to `b` plus the length of `t` are a valid range,
/// and `remove_range` over them returns `t` and leaves the line as it was.
pub proof fn lemma_insert_then_remove(s: Seq<char>, b: int, t: Seq<char>)
    requires
        is_boundary(s, b),
    ensures
        is_boundary(inserted(s, b, t), b),
        is_boundary(inserted(s, b, t), b + utf8_len(t)),
        removed(inserted(s, b, t), b, b + utf8_len(t)) == (t, s),
{
    let k = char_at_byte(s, b);
    let s1 = inserted(s, b, t);
    assert(s1.take(k) =~= s.take(k));
    assert(s1.take(k + t.len()) =~= s.take(k) + t);
    lemma_utf8_len_concat(s.take(k), t);
    lemma_char_at_byte(s1, k);
    lemma_char_at_byte(s1, k + t.len());
    assert(s1.subrange(k, k + t.len()) =~= t);
    assert(s1.take(k) + s1.skip(k + t.len()) =~= s);
}

} // verus!
