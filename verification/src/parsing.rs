//! Splitting of shape records: comma-separated fields that may hold
//! bracketed blocks, and the vertex lists of simple multi-line strings.

use vstd::prelude::*;
use vstd::string::StrSliceExecFns;
use crate::text::{is_whitespace, whitespace, to_chars};

verus! {

/// The bracket depth after reading `c` at depth `depth`. An opening bracket
/// raises it and a closing bracket lowers it, both wrapping around, so that
/// an unmatched closing bracket is undone by the next opening one.
pub open spec fn depth_after(depth: u32, c: char) -> u32 {
    if c == '(' {
        if depth == u32::MAX { 0u32 } else { (depth + 1) as u32 }
    } else if c == ')' {
        if depth == 0 { u32::MAX } else { (depth - 1) as u32 }
    } else {
        depth
    }
}

/// The first index at or after `from` that holds no whitespace, or the
/// length of `s` if only whitespace follows.
pub open spec fn skip_whitespace(s: Seq<char>, from: int) -> int
    decreases s.len() - from,
{
    if 0 <= from < s.len() && is_whitespace(s[from]) {
        skip_whitespace(s, from + 1)
    } else {
        from
    }
}

/// Where the field that is read from index `from` at bracket depth `depth`
/// stops: at the first comma met at depth zero, or at the end of `s`.
pub open spec fn field_stop(s: Seq<char>, from: int, depth: u32) -> int
    decreases s.len() - from,
{
    if from < 0 || from >= s.len() {
        s.len() as int
    } else if s[from] == ',' && depth == 0 {
        from
    } else {
        field_stop(s, from + 1, depth_after(depth, s[from]))
    }
}

/// The bracket depth reached where that field stops.
pub open spec fn depth_at_stop(s: Seq<char>, from: int, depth: u32) -> u32
    decreases s.len() - from,
{
    if from < 0 || from >= s.len() {
        depth
    } else if s[from] == ',' && depth == 0 {
        depth
    } else {
        depth_at_stop(s, from + 1, depth_after(depth, s[from]))
    }
}

/// The end of `s[start..stop]` once trailing whitespace is left off.
pub open spec fn trimmed_end(s: Seq<char>, start: int, stop: int) -> int
    decreases stop - start,
{
    if 0 <= start < stop <= s.len() && is_whitespace(s[stop - 1]) {
        trimmed_end(s, start, stop - 1)
    } else {
        stop
    }
}

/// The fields of `s` that are read from `position` on, starting at bracket
/// depth `depth`. Whitespace around a field is left off. A field between
/// two commas may be empty, but after the last comma a field that holds
/// only whitespace, or nothing, does not count.
pub open spec fn fields(s: Seq<char>, position: int, depth: u32) -> Seq<Seq<char>>
    decreases s.len() - position,
{
    let start = skip_whitespace(s, position);
    let stop = field_stop(s, start, depth);
    let field = s.subrange(start, trimmed_end(s, start, stop));
    if position <= start < s.len() && start <= stop < s.len() {
        seq![field] + fields(s, stop + 1, depth_at_stop(s, start, depth))
    } else if position <= start < s.len() {
        seq![field]
    } else {
        seq![]
    }
}

/// Skipping whitespace never moves backwards, nor past the end of `s`.
pub proof fn lemma_skip_whitespace_bounds(s: Seq<char>, from: int)
    requires
        0 <= from <= s.len(),
    ensures
        from <= skip_whitespace(s, from) <= s.len(),
    decreases s.len() - from,
{
    if from < s.len() && is_whitespace(s[from]) {
        lemma_skip_whitespace_bounds(s, from + 1);
    }
}

/// A field stops at or after the index where it starts, and within `s`.
pub proof fn lemma_field_stop_bounds(s: Seq<char>, from: int, depth: u32)
    requires
        0 <= from <= s.len(),
    ensures
        from <= field_stop(s, from, depth) <= s.len(),
    decreases s.len() - from,
{
    if from < s.len() && !(s[from] == ',' && depth == 0) {
        lemma_field_stop_bounds(s, from + 1, depth_after(depth, s[from]));
    }
}

/// What is left of `s[start..stop]` ends in a character that is no
/// whitespace, unless nothing is left, and only whitespace was left off.
pub proof fn lemma_trimmed_end(s: Seq<char>, start: int, stop: int)
    requires
        0 <= start <= stop <= s.len(),
    ensures
        start <= trimmed_end(s, start, stop) <= stop,
        trimmed_end(s, start, stop) == start || !is_whitespace(
            s[trimmed_end(s, start, stop) - 1],
        ),
        forall|k: int| trimmed_end(s, start, stop) <= k < stop ==> is_whitespace(s[k]),
    decreases stop - start,
{
    if start < stop && is_whitespace(s[stop - 1]) {
        lemma_trimmed_end(s, start, stop - 1);
    }
}

/// The characters of `data` from index `from` up to index `to`. Where
/// `data` is known to hold only ASCII, the slice is cut in constant time.
fn slice<'a>(data: &'a str, ascii: bool, from: usize, to: usize) -> (r: &'a str)
    requires
        from <= to <= data@.len(),
        ascii ==> data.is_ascii(),
    ensures
        r@ == data@.subrange(from as int, to as int),
{
    if ascii {
        data.substring_ascii(from, to)
    } else {
        data.substring_char(from, to)
    }
}

/// Reader of the fields of one record. It remembers how far it has read
/// and how deep in brackets it stands.
pub struct GeoShpIter<'a> {
    input: &'a String,
    chars: Vec<char>,
    ascii: bool,
    read_index: usize,
    block_depth: u32,
}

impl<'a> GeoShpIter<'a> {
    /// The record that is read.
    pub closed spec fn source(&self) -> Seq<char> {
        self.input@
    }

    /// How many characters of the record have been consumed.
    pub closed spec fn position(&self) -> int {
        self.read_index as int
    }

    /// The bracket depth at the current position.
    pub closed spec fn depth(&self) -> u32 {
        self.block_depth
    }

    /// The reader's invariant: its position lies within the record.
    pub closed spec fn wf(&self) -> bool {
        &&& self.chars@ == self.input@
        &&& self.ascii ==> self.input.is_ascii()
        &&& self.read_index <= self.chars@.len()
    }

    /// A reader at the start of `input`, outside any bracket.
    pub fn new(input: &'a String) -> (r: Self)
        ensures
            r.wf(),
            r.source() == input@,
            r.position() == 0,
            r.depth() == 0,
    {
        Self {
            input,
            chars: to_chars(input.as_str()),
            ascii: input.as_str().is_ascii(),
            read_index: 0,
            block_depth: 0,
        }
    }

    /// Reads the next field, if one is left. Whitespace before the field is
    /// skipped; if nothing else follows there is no field. Otherwise the
    /// field runs up to the first comma outside all brackets, or to the end
    /// of the record, with trailing whitespace left off, and the reader
    /// moves past that comma.
    pub fn next(&mut self) -> (r: Option<&'a str>)
        requires
            old(self).wf(),
        ensures
            final(self).wf(),
            final(self).source() == old(self).source(),
            ({
                let s = old(self).source();
                let start = skip_whitespace(s, old(self).position());
                let stop = field_stop(s, start, old(self).depth());
                if start >= s.len() {
                    &&& r is None
                    &&& final(self).position() == s.len()
                    &&& final(self).depth() == old(self).depth()
                } else {
                    &&& r is Some
                    &&& r.unwrap()@ == s.subrange(start, trimmed_end(s, start, stop))
                    &&& final(self).position() == if stop < s.len() { stop + 1 } else { stop }
                    &&& final(self).depth() == depth_at_stop(s, start, old(self).depth())
                }
            }),
    {
        let input: &'a String = self.input;
        let n = self.chars.len();
        let ghost s = self.chars@;
        let mut i = self.read_index;
        while i < n && whitespace(self.chars[i])
            invariant
                self.chars@ == s,
                n == s.len(),
                i <= n,
                skip_whitespace(s, i as int) == skip_whitespace(s, old(self).position()),
            decreases n - i,
        {
            i += 1;
        }
        if i >= n {
            self.read_index = n;
            return None;
        }
        let start = i;
        let mut depth = self.block_depth;
        let mut end = start;
        while i < n && !(self.chars[i] == ',' && depth == 0)
            invariant
                self.chars@ == s,
                n == s.len(),
                start <= end <= i <= n,
                end == trimmed_end(s, start as int, i as int),
                field_stop(s, i as int, depth) == field_stop(s, start as int, old(self).depth()),
                depth_at_stop(s, i as int, depth) == depth_at_stop(
                    s,
                    start as int,
                    old(self).depth(),
                ),
            decreases n - i,
        {
            let c = self.chars[i];
            if !whitespace(c) {
                end = i + 1;
            }
            if c == '(' {
                depth = if depth == u32::MAX { 0 } else { depth + 1 };
            } else if c == ')' {
                depth = if depth == 0 { u32::MAX } else { depth - 1 };
            }
            i += 1;
        }
        self.block_depth = depth;
        self.read_index = if i < n { i + 1 } else { n };
        Some(slice(input.as_str(), self.ascii, start, end))
    }

    /// Reads all the fields that are left, in order.
    pub fn collect(self) -> (r: Vec<&'a str>)
        requires
            self.wf(),
        ensures
            views(r@) == fields(self.source(), self.position(), self.depth()),
    {
        let ghost s = self.source();
        let ghost all = fields(s, self.position(), self.depth());
        let mut reader = self;
        let mut out: Vec<&'a str> = Vec::new();
        assert(views(out@) =~= Seq::<Seq<char>>::empty());
        loop
            invariant
                s == self.source(),
                all == fields(s, self.position(), self.depth()),
                reader.wf(),
                reader.source() == s,
                0 <= reader.position() <= s.len(),
                views(out@) + fields(s, reader.position(), reader.depth()) == all,
            decreases s.len() - reader.position(),
        {
            let ghost position = reader.position();
            let ghost depth = reader.depth();
            proof {
                lemma_skip_whitespace_bounds(s, position);
                lemma_field_stop_bounds(s, skip_whitespace(s, position), depth);
            }
            match reader.next() {
                Some(field) => {
                    proof {
                        let rest = fields(s, reader.position(), reader.depth());
                        assert(fields(s, position, depth) =~= seq![field@] + rest);
                        assert(views(out@.push(field)) =~= views(out@).push(field@));
                        assert(views(out@).push(field@) + rest =~= views(out@) + fields(
                            s,
                            position,
                            depth,
                        ));
                    }
                    out.push(field);
                },
                None => {
                    assert(views(out@) + fields(s, position, depth) =~= views(out@));
                    return out;
                },
            }
        }
    }
}

/// A reader of the fields of `data`.
pub fn parse_geo_shp<'a>(data: &'a String) -> (r: GeoShpIter<'a>)
    ensures
        r.wf(),
        r.source() == data@,
        r.position() == 0,
        r.depth() == 0,
{
    GeoShpIter::new(data)
}

/// What a simple multi-line string begins with.
pub open spec fn multiline_prefix() -> Seq<char> {
    "MULTILINESTRING (("@
}

/// What lies between the prefix of a simple multi-line string and its two
/// closing brackets.
pub open spec fn multiline_body(s: Seq<char>) -> Seq<char> {
    s.subrange(multiline_prefix().len() as int, s.len() - 2)
}

/// The index of the first comma at or after `from`, or the length of `s`.
pub open spec fn next_comma(s: Seq<char>, from: int) -> int
    decreases s.len() - from,
{
    if from < 0 || from >= s.len() {
        s.len() as int
    } else if s[from] == ',' {
        from
    } else {
        next_comma(s, from + 1)
    }
}

/// The pieces of `s` between its commas. There is one more piece than
/// there are commas, and a piece may be empty.
pub open spec fn split_commas(s: Seq<char>) -> Seq<Seq<char>>
    decreases s.len(),
{
    let i = next_comma(s, 0);
    if 0 <= i < s.len() {
        seq![s.take(i)] + split_commas(s.skip(i + 1))
    } else {
        seq![s]
    }
}

/// The first index at or after `from` that holds whitespace, or the length
/// of `s`.
pub open spec fn word_end(s: Seq<char>, from: int) -> int
    decreases s.len() - from,
{
    if 0 <= from < s.len() && !is_whitespace(s[from]) {
        word_end(s, from + 1)
    } else {
        from
    }
}

/// The maximal runs of characters of `s` that hold no whitespace, in order.
pub open spec fn words(s: Seq<char>) -> Seq<Seq<char>>
    decreases s.len(),
{
    let a = skip_whitespace(s, 0);
    let b = word_end(s, a);
    if 0 <= a < b <= s.len() {
        seq![s.subrange(a, b)] + words(s.skip(b))
    } else {
        seq![]
    }
}

/// A word runs from where it starts up to the next whitespace, or to the
/// end of `s`, and holds no whitespace.
pub proof fn lemma_word_end(s: Seq<char>, from: int)
    requires
        0 <= from <= s.len(),
    ensures
        from <= word_end(s, from) <= s.len(),
        word_end(s, from) == s.len() || is_whitespace(s[word_end(s, from)]),
        forall|k: int| from <= k < word_end(s, from) ==> !is_whitespace(s[k]),
    decreases s.len() - from,
{
    if from < s.len() && !is_whitespace(s[from]) {
        lemma_word_end(s, from + 1);
    }
}

/// No word is empty, and no word holds whitespace.
pub proof fn lemma_words_hold_no_whitespace(s: Seq<char>)
    ensures
        forall|i: int, k: int|
            0 <= i < words(s).len() && 0 <= k < words(s)[i].len() ==> !is_whitespace(
                #[trigger] words(s)[i][k],
            ),
        forall|i: int| 0 <= i < words(s).len() ==> (#[trigger] words(s)[i]).len() > 0,
    decreases s.len(),
{
    let a = skip_whitespace(s, 0);
    let b = word_end(s, a);
    if 0 <= a < b <= s.len() {
        lemma_word_end(s, a);
        lemma_words_hold_no_whitespace(s.skip(b));
        let first = s.subrange(a, b);
        let rest = words(s.skip(b));
        assert(words(s) == seq![first] + rest);
        assert forall|i: int| 0 <= i < words(s).len() implies (#[trigger] words(s)[i]).len() > 0
            && forall|k: int|
            0 <= k < words(s)[i].len() ==> !is_whitespace(#[trigger] words(s)[i][k]) by {
            if i == 0 {
                assert(words(s)[0] == first);
                assert forall|k: int| 0 <= k < first.len() implies !is_whitespace(
                    #[trigger] first[k],
                ) by {
                    assert(first[k] == s[a + k]);
                }
            } else {
                assert(words(s)[i] == rest[i - 1]);
            }
        }
    }
}

/// The words of each comma-separated piece of `s`.
pub open spec fn vertex_lists(s: Seq<char>) -> Seq<Seq<Seq<char>>> {
    split_commas(s).map_values(|piece: Seq<char>| words(piece))
}

/// The contents of a list of string slices.
pub open spec fn views(v: Seq<&str>) -> Seq<Seq<char>> {
    v.map_values(|w: &str| w@)
}

/// The contents of a list of lists of string slices.
pub open spec fn nested_views(v: Seq<Vec<&str>>) -> Seq<Seq<Seq<char>>> {
    v.map_values(|w: Vec<&str>| views(w@))
}

/// Whether `chars` begins with `prefix`.
fn starts_with(chars: &Vec<char>, prefix: &Vec<char>) -> (r: bool)
    ensures
        r == prefix@.is_prefix_of(chars@),
{
    if prefix.len() > chars.len() {
        return false;
    }
    let mut i: usize = 0;
    while i < prefix.len()
        invariant
            i <= prefix.len() <= chars.len(),
            forall|k: int| 0 <= k < i ==> prefix@[k] == chars@[k],
        decreases prefix.len() - i,
    {
        if prefix[i] != chars[i] {
            return false;
        }
        i += 1;
    }
    assert(prefix@ =~= chars@.subrange(0, prefix@.len() as int));
    true
}

/// Whether `data` begins like a simple multi-line string.
pub fn is_simple_multiline_string(data: &str) -> (r: bool)
    ensures
        r == multiline_prefix().is_prefix_of(data@),
{
    let prefix = to_chars("MULTILINESTRING ((");
    let chars = to_chars(data);
    starts_with(&chars, &prefix)
}

/// The words of `data[from..to]`, where `chars` holds the characters of
/// `data` and `ascii` says that all of them are known to be ASCII.
fn split_words<'a>(
    data: &'a str,
    chars: &Vec<char>,
    ascii: bool,
    from: usize,
    to: usize,
) -> (r: Vec<&'a str>)
    requires
        chars@ == data@,
        ascii ==> data.is_ascii(),
        from <= to <= chars@.len(),
    ensures
        views(r@) == words(data@.subrange(from as int, to as int)),
{
    let ghost s = chars@;
    let mut out: Vec<&'a str> = Vec::new();
    let mut i = from;
    assert(views(out@) =~= Seq::<Seq<char>>::empty());
    loop
        invariant
            chars@ == s,
            s == data@,
            ascii ==> data.is_ascii(),
            from <= i <= to <= s.len(),
            views(out@) + words(s.subrange(i as int, to as int)) == words(
                s.subrange(from as int, to as int),
            ),
        decreases to - i,
    {
        let ghost rest = s.subrange(i as int, to as int);
        let ghost base = i;
        while i < to && whitespace(chars[i])
            invariant
                chars@ == s,
                base <= i <= to <= s.len(),
                rest == s.subrange(base as int, to as int),
                skip_whitespace(rest, i - base) == skip_whitespace(rest, 0),
            decreases to - i,
        {
            i += 1;
        }
        if i >= to {
            assert(words(rest) =~= Seq::<Seq<char>>::empty());
            assert(views(out@) + words(rest) =~= views(out@));
            return out;
        }
        let start = i;
        while i < to && !whitespace(chars[i])
            invariant
                chars@ == s,
                base <= start <= i <= to <= s.len(),
                rest == s.subrange(base as int, to as int),
                word_end(rest, i - base) == word_end(rest, start - base),
            decreases to - i,
        {
            i += 1;
        }
        let word = slice(data, ascii, start, i);
        proof {
            assert(skip_whitespace(rest, 0) == start - base);
            assert(word_end(rest, start - base) == i - base);
            assert(rest.subrange(start - base, i - base) =~= s.subrange(start as int, i as int));
            assert(rest.skip(i - base) =~= s.subrange(i as int, to as int));
            assert(words(rest) == seq![word@] + words(s.subrange(i as int, to as int)));
            assert(views(out@.push(word)) =~= views(out@).push(word@));
            assert(views(out@).push(word@) + words(s.subrange(i as int, to as int)) =~= views(out@)
                + words(rest));
        }
        out.push(word);
    }
}

/// The vertices of a simple multi-line string: for each comma-separated
/// piece between the prefix and the two closing brackets, its words.
pub fn parse_simple_multiline_string(data: &str) -> (r: Vec<Vec<&str>>)
    requires
        multiline_prefix().is_prefix_of(data@),
        data@.len() >= multiline_prefix().len() + 2,
    ensures
        nested_views(r@) == vertex_lists(multiline_body(data@)),
{
    let prefix = to_chars("MULTILINESTRING ((");
    let chars = to_chars(data);
    let ascii = data.is_ascii();
    let ghost s = chars@;
    let first = prefix.len();
    let end = chars.len() - 2;
    let ghost body = s.subrange(first as int, end as int);
    assert(body == multiline_body(data@));
    let mut out: Vec<Vec<&str>> = Vec::new();
    let mut pos = first;
    assert(nested_views(out@) =~= Seq::<Seq<Seq<char>>>::empty());
    loop
        invariant
            chars@ == s,
            s == data@,
            ascii ==> data.is_ascii(),
            first <= pos <= end <= s.len(),
            body == s.subrange(first as int, end as int),
            body == multiline_body(data@),
            nested_views(out@) + vertex_lists(s.subrange(pos as int, end as int)) == vertex_lists(
                body,
            ),
        decreases end - pos,
    {
        let ghost rest = s.subrange(pos as int, end as int);
        let mut j = pos;
        while j < end && chars[j] != ','
            invariant
                chars@ == s,
                pos <= j <= end <= s.len(),
                rest == s.subrange(pos as int, end as int),
                next_comma(rest, j - pos) == next_comma(rest, 0),
            decreases end - j,
        {
            j += 1;
        }
        let piece = split_words(data, &chars, ascii, pos, j);
        proof {
            assert(next_comma(rest, 0) == j - pos);
            assert(views(piece@) == words(s.subrange(pos as int, j as int)));
            assert(nested_views(out@.push(piece)) =~= nested_views(out@).push(views(piece@)));
        }
        out.push(piece);
        if j >= end {
            proof {
                assert(rest =~= s.subrange(pos as int, j as int));
                assert(split_commas(rest) =~= seq![rest]);
                assert(vertex_lists(rest) =~= seq![words(rest)]);
                assert(nested_views(out@) =~= vertex_lists(body));
            }
            return out;
        }
        proof {
            let tail = s.subrange(j + 1, end as int);
            assert(rest.take(j - pos) =~= s.subrange(pos as int, j as int));
            assert(rest.skip(j - pos + 1) =~= tail);
            assert(split_commas(rest) == seq![rest.take(j - pos)] + split_commas(tail));
            assert(vertex_lists(rest) =~= seq![words(rest.take(j - pos))] + vertex_lists(tail));
            assert(nested_views(out@) + vertex_lists(tail) =~= vertex_lists(body));
        }
        pos = j + 1;
    }
}

} // verus!
