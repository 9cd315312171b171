//! The values of the header fields that the engine reads and writes, each
//! held as plain data.

use vstd::prelude::*;
use vstd::slice::slice_subrange;
use vstd::string::*;
use crate::http::content_encoding::{is_header_text, is_text};
use crate::text::{
    append, append_decimal, bytes_eq, decimal, find_byte, find_from, to_vec, trim, trim_bytes,
    ASTERISK, COMMA, DASH, QUOTE, SLASH, UPPER_W,
};

verus! {

/// An entity tag: the opaque text between the quotes, and whether the tag
/// is weak.
#[derive(Debug, Clone, PartialEq, Eq)]
pub struct EntityTag {
    pub weak: bool,
    pub tag: Vec<u8>,
}

impl View for EntityTag {
    type V = (bool, Seq<u8>);

    open spec fn view(&self) -> (bool, Seq<u8>) {
        (self.weak, self.tag@)
    }
}

/// The opaque text of the tag of a file last modified at `mtime_secs` and
/// `size` bytes long.
pub open spec fn file_tag(mtime_secs: u64, size: u64) -> Seq<u8> {
    decimal(mtime_secs as nat) + seq![DASH] + decimal(size as nat)
}

/// Strong comparison: both tags are strong and their texts are equal.
pub open spec fn strong_match(a: (bool, Seq<u8>), b: (bool, Seq<u8>)) -> bool {
    !a.0 && !b.0 && a.1 == b.1
}

/// Weak comparison: the texts are equal, weak or not.
pub open spec fn weak_match(a: (bool, Seq<u8>), b: (bool, Seq<u8>)) -> bool {
    a.1 == b.1
}

/// Two files have the same tag only if they agree in modification time
/// and size.
pub proof fn lemma_file_tag_unique(mtime: u64, size: u64, other_mtime: u64, other_size: u64)
    requires
        file_tag(mtime, size) == file_tag(other_mtime, other_size),
    ensures
        mtime == other_mtime,
        size == other_size,
{
    let a = decimal(mtime as nat);
    let b = decimal(other_mtime as nat);
    let x = decimal(size as nat);
    let y = decimal(other_size as nat);
    let t = file_tag(mtime, size);
    crate::text::lemma_decimal_digits(mtime as nat);
    crate::text::lemma_decimal_digits(other_mtime as nat);
    crate::text::lemma_decimal_digits(size as nat);
    crate::text::lemma_decimal_digits(other_size as nat);
    assert(t[a.len() as int] == DASH);
    assert(t[b.len() as int] == DASH);
    if a.len() < b.len() {
        assert(t[a.len() as int] == b[a.len() as int]);
        assert(false);
    }
    if b.len() < a.len() {
        assert(t[b.len() as int] == a[b.len() as int]);
        assert(false);
    }
    assert(a =~= t.subrange(0, a.len() as int));
    assert(b =~= t.subrange(0, a.len() as int));
    assert(x =~= t.subrange(a.len() as int + 1, t.len() as int));
    assert(y =~= t.subrange(a.len() as int + 1, t.len() as int));
    crate::text::lemma_decimal_value(mtime as nat);
    crate::text::lemma_decimal_value(other_mtime as nat);
    crate::text::lemma_decimal_value(size as nat);
    crate::text::lemma_decimal_value(other_size as nat);
}

/// The tag that a header field value stands for: the text between two
/// quotes, with `W/` before the first where the tag is weak.  The text
/// holds no quote itself.
pub open spec fn parsed_tag(raw: Seq<u8>) -> Option<(bool, Seq<u8>)> {
    if raw.len() >= 2 && raw[0] == QUOTE && raw.last() == QUOTE && find_from(
        raw.subrange(1, raw.len() - 1),
        34,
        0,
    ) >= raw.len() - 2 {
        Some((false, raw.subrange(1, raw.len() - 1)))
    } else if raw.len() >= 4 && raw[0] == UPPER_W && raw[1] == SLASH && raw[2] == QUOTE && raw.last() == QUOTE
        && find_from(raw.subrange(3, raw.len() - 1), QUOTE, 0) >= raw.len() - 4 {
        Some((true, raw.subrange(3, raw.len() - 1)))
    } else {
        None
    }
}

/// What a tag looks like in a header field: `"text"`, or `W/"text"` where
/// the tag is weak.
pub open spec fn tag_text(tag: (bool, Seq<u8>)) -> Seq<u8> {
    if tag.0 {
        seq![UPPER_W, SLASH, QUOTE] + tag.1 + seq![QUOTE]
    } else {
        seq![QUOTE] + tag.1 + seq![QUOTE]
    }
}

impl EntityTag {
    /// Reads a tag out of a header field value.
    pub fn parse(raw: &[u8]) -> (r: Option<EntityTag>)
        ensures
            match r {
                Some(tag) => parsed_tag(raw@) == Some(tag@),
                None => parsed_tag(raw@) is None,
            },
    {
        let n = raw.len();
        if n < 2 || raw[n - 1] != QUOTE {
            return None;
        }
        let (weak, start): (bool, usize) = if raw[0] == QUOTE {
            (false, 1)
        } else if n >= 4 && raw[0] == UPPER_W && raw[1] == SLASH && raw[2] == QUOTE {
            (true, 3)
        } else {
            return None;
        };
        let text = slice_subrange(raw, start, n - 1);
        if find_byte(text, QUOTE, 0) < text.len() {
            return None;
        }
        Some(EntityTag { weak, tag: to_vec(text) })
    }


    /// What the tag looks like in a header field.
    pub open spec fn wire(&self) -> Seq<u8> {
        tag_text(self@)
    }

    /// A strong tag of the given text.
    pub fn strong(tag: &[u8]) -> (r: EntityTag)
        ensures
            r@ == (false, tag@),
    {
        EntityTag { weak: false, tag: to_vec(tag) }
    }

    /// A weak tag of the given text.
    pub fn weak(tag: &[u8]) -> (r: EntityTag)
        ensures
            r@ == (true, tag@),
    {
        EntityTag { weak: true, tag: to_vec(tag) }
    }

    /// The strong validator of a file: its modification time in seconds,
    /// a dash, and its size in bytes.
    pub fn for_file(mtime_secs: u64, size: u64) -> (r: EntityTag)
        ensures
            r@ == (false, file_tag(mtime_secs, size)),
    {
        let mut tag: Vec<u8> = Vec::new();
        append_decimal(&mut tag, mtime_secs);
        tag.push(DASH);
        append_decimal(&mut tag, size);
        assert(tag@ =~= file_tag(mtime_secs, size));
        EntityTag { weak: false, tag }
    }

    /// Strong comparison.
    pub fn strong_eq(&self, other: &EntityTag) -> (r: bool)
        ensures
            r == strong_match(self@, other@),
    {
        !self.weak && !other.weak && bytes_eq(self.tag.as_slice(), other.tag.as_slice())
    }

    /// Weak comparison.
    pub fn weak_eq(&self, other: &EntityTag) -> (r: bool)
        ensures
            r == weak_match(self@, other@),
    {
        bytes_eq(self.tag.as_slice(), other.tag.as_slice())
    }

    /// The header field value that carries this tag.
    pub fn header_value(&self) -> (r: Vec<u8>)
        ensures
            r@ == self.wire(),
    {
        let mut out: Vec<u8> = Vec::new();
        if self.weak {
            out.push(UPPER_W);
            out.push(SLASH);
        }
        out.push(QUOTE);
        append(&mut out, self.tag.as_slice());
        out.push(QUOTE);
        assert(out@ =~= self.wire());
        out
    }

    /// A copy of the tag.
    pub fn duplicate(&self) -> (r: EntityTag)
        ensures
            r@ == self@,
    {
        EntityTag { weak: self.weak, tag: to_vec(self.tag.as_slice()) }
    }
}

/// The value of `If-Match` or `If-None-Match`: `*`, or a list of tags.
#[derive(Debug, Clone, PartialEq, Eq)]
pub enum TagCondition {
    Any,
    Tags(Vec<EntityTag>),
}

/// Whether one of the tags compares strongly equal to `etag`.
pub open spec fn some_strong_match(tags: Seq<EntityTag>, etag: (bool, Seq<u8>)) -> bool {
    exists|i: int| 0 <= i < tags.len() && strong_match((#[trigger] tags[i])@, etag)
}

/// Whether one of the tags compares weakly equal to `etag`.
pub open spec fn some_weak_match(tags: Seq<EntityTag>, etag: (bool, Seq<u8>)) -> bool {
    exists|i: int| 0 <= i < tags.len() && weak_match((#[trigger] tags[i])@, etag)
}

/// The value of `If-Match` or `If-None-Match` as a value.
pub enum TagConditionView {
    Any,
    Tags(Seq<(bool, Seq<u8>)>),
}

/// The tags of a list as values.
pub open spec fn tag_views(tags: Seq<EntityTag>) -> Seq<(bool, Seq<u8>)> {
    Seq::new(tags.len(), |i: int| tags[i]@)
}

impl View for TagCondition {
    type V = TagConditionView;

    open spec fn view(&self) -> TagConditionView {
        match self {
            TagCondition::Any => TagConditionView::Any,
            TagCondition::Tags(tags) => TagConditionView::Tags(tag_views(tags@)),
        }
    }
}

/// The first comma at or after `from` that stands outside quotes, or the
/// length where there is none; `in_quotes` says whether a quote is open
/// at `from`.
pub open spec fn next_cut(s: Seq<u8>, from: int, in_quotes: bool) -> int
    decreases s.len() - from,
{
    if from < 0 || from >= s.len() {
        s.len() as int
    } else if in_quotes {
        next_cut(s, from + 1, s[from] != QUOTE)
    } else if s[from] == COMMA {
        from
    } else {
        next_cut(s, from + 1, s[from] == QUOTE)
    }
}

/// The pieces of a list between the commas that stand outside quotes.
pub open spec fn list_pieces(s: Seq<u8>) -> Seq<Seq<u8>>
    decreases s.len(),
{
    let end = next_cut(s, 0, false);
    if end < 0 || end >= s.len() {
        seq![s]
    } else {
        seq![s.subrange(0, end)] + list_pieces(s.subrange(end + 1, s.len() as int))
    }
}

/// The tags among the pieces of a list: each piece without the white space
/// around it, where that is a tag.
pub open spec fn tags_of(pieces: Seq<Seq<u8>>) -> Seq<(bool, Seq<u8>)>
    decreases pieces.len(),
{
    if pieces.len() == 0 {
        Seq::empty()
    } else {
        match parsed_tag(trim(pieces.last())) {
            Some(tag) => tags_of(pieces.drop_last()).push(tag),
            None => tags_of(pieces.drop_last()),
        }
    }
}

/// What the value of `If-Match` or `If-None-Match` stands for: every tag
/// where it is a lone asterisk, and otherwise the tags of its list.  A
/// value that is no text stands for no tag at all.
pub open spec fn tag_condition(raw: Seq<u8>) -> TagConditionView {
    if raw == seq![ASTERISK] {
        TagConditionView::Any
    } else if is_header_text(raw) {
        TagConditionView::Tags(tags_of(list_pieces(raw)))
    } else {
        TagConditionView::Tags(Seq::empty())
    }
}

proof fn lemma_next_cut(s: Seq<u8>, from: int, in_quotes: bool)
    requires
        0 <= from <= s.len(),
    ensures
        from <= next_cut(s, from, in_quotes) <= s.len(),
    decreases s.len() - from,
{
    if from < s.len() {
        if in_quotes {
            lemma_next_cut(s, from + 1, s[from] != QUOTE);
        } else if s[from] != COMMA {
            lemma_next_cut(s, from + 1, s[from] == QUOTE);
        }
    }
}

proof fn lemma_cut_shift(s: Seq<u8>, from: int, at: int, in_quotes: bool)
    requires
        0 <= from <= at <= s.len(),
    ensures
        next_cut(s.subrange(from, s.len() as int), at - from, in_quotes) + from == next_cut(
            s,
            at,
            in_quotes,
        ),
    decreases s.len() - at,
{
    let t = s.subrange(from, s.len() as int);
    if at < s.len() {
        assert(t[at - from] == s[at]);
        if in_quotes {
            lemma_cut_shift(s, from, at + 1, s[at] != QUOTE);
        } else if s[at] != COMMA {
            lemma_cut_shift(s, from, at + 1, s[at] == QUOTE);
        }
    }
}

proof fn lemma_pieces_push(done: Seq<Seq<u8>>, s: Seq<u8>, from: int)
    requires
        0 <= from <= s.len(),
    ensures
        ({
            let end = next_cut(s, from, false);
            let rest = s.subrange(from, s.len() as int);
            if end >= s.len() {
                done + list_pieces(rest) == done.push(rest)
            } else {
                done + list_pieces(rest) == done.push(s.subrange(from, end)) + list_pieces(
                    s.subrange(end + 1, s.len() as int),
                )
            }
        }),
{
    let end = next_cut(s, from, false);
    let rest = s.subrange(from, s.len() as int);
    lemma_cut_shift(s, from, from, false);
    lemma_next_cut(s, from, false);
    let e = next_cut(rest, 0, false);
    assert(e + from == end);
    if end >= s.len() {
        assert(done + seq![rest] =~= done.push(rest));
    } else {
        assert(rest.subrange(0, e) =~= s.subrange(from, end));
        assert(rest.subrange(e + 1, rest.len() as int) =~= s.subrange(end + 1, s.len() as int));
        assert(done + (seq![rest.subrange(0, e)] + list_pieces(
            rest.subrange(e + 1, rest.len() as int),
        )) =~= done.push(s.subrange(from, end)) + list_pieces(
            s.subrange(end + 1, s.len() as int),
        ));
    }
}

fn find_cut(s: &[u8], from: usize) -> (r: usize)
    requires
        from <= s@.len(),
    ensures
        r == next_cut(s@, from as int, false),
        from <= r <= s@.len(),
{
    let mut i: usize = from;
    let mut in_quotes = false;
    while i < s.len() && (in_quotes || s[i] != COMMA)
        invariant
            from <= i <= s@.len(),
            next_cut(s@, from as int, false) == next_cut(s@, i as int, in_quotes),
        decreases s@.len() - i,
    {
        if in_quotes {
            in_quotes = s[i] != QUOTE;
        } else {
            in_quotes = s[i] == QUOTE;
        }
        i += 1;
    }
    i
}

impl TagCondition {
    /// Reads the value of `If-Match` or `If-None-Match`.
    pub fn parse(raw: &[u8]) -> (r: TagCondition)
        ensures
            r@ == tag_condition(raw@),
    {
        if raw.len() == 1 && raw[0] == ASTERISK {
            assert(raw@ =~= seq![ASTERISK]);
            return TagCondition::Any;
        }
        let mut tags: Vec<EntityTag> = Vec::new();
        if !is_text(raw) {
            assert(tag_views(tags@) =~= Seq::<(bool, Seq<u8>)>::empty());
            return TagCondition::Tags(tags);
        }
        let mut from: usize = 0;
        let ghost mut done: Seq<Seq<u8>> = Seq::empty();
        proof {
            assert(raw@.subrange(0, raw@.len() as int) =~= raw@);
            assert(done + list_pieces(raw@) =~= list_pieces(raw@));
            assert(tag_views(tags@) =~= tags_of(done));
        }
        loop
            invariant_except_break
                from <= raw@.len(),
                tag_views(tags@) == tags_of(done),
                list_pieces(raw@) == done + list_pieces(
                    raw@.subrange(from as int, raw@.len() as int),
                ),
            ensures
                tag_views(tags@) == tags_of(list_pieces(raw@)),
            decreases raw@.len() - from,
        {
            let end = find_cut(raw, from);
            let piece = slice_subrange(raw, from, end);
            let ghost before = tag_views(tags@);
            proof {
                lemma_pieces_push(done, raw@, from as int);
                let old_done = done;
                done = done.push(piece@);
                assert(done.drop_last() =~= old_done);
                assert(done.last() == piece@);
            }
            match EntityTag::parse(trim_bytes(piece)) {
                Some(tag) => {
                    tags.push(tag);
                    proof {
                        assert(tag_views(tags@) =~= before.push(tag@));
                    }
                },
                None => {},
            }
            if end >= raw.len() {
                proof {
                    assert(piece@ =~= raw@.subrange(from as int, raw@.len() as int));
                }
                break ;
            }
            from = end + 1;
        }
        TagCondition::Tags(tags)
    }

    /// `*` matches every tag; a list matches when one of its tags compares
    /// strongly equal.
    pub open spec fn strong_matches(&self, etag: (bool, Seq<u8>)) -> bool {
        match self {
            TagCondition::Any => true,
            TagCondition::Tags(tags) => some_strong_match(tags@, etag),
        }
    }

    /// `*` matches every tag; a list matches when one of its tags compares
    /// weakly equal.
    pub open spec fn weak_matches(&self, etag: (bool, Seq<u8>)) -> bool {
        match self {
            TagCondition::Any => true,
            TagCondition::Tags(tags) => some_weak_match(tags@, etag),
        }
    }

    /// The condition that names one tag.
    pub fn from(etag: EntityTag) -> (r: TagCondition)
        ensures
            r matches TagCondition::Tags(tags) && tags@ == seq![etag],
            forall|e: (bool, Seq<u8>)| r.strong_matches(e) == strong_match(etag@, e),
            forall|e: (bool, Seq<u8>)| r.weak_matches(e) == weak_match(etag@, e),
    {
        let mut tags: Vec<EntityTag> = Vec::new();
        tags.push(etag);
        let r = TagCondition::Tags(tags);
        proof {
            assert forall|e: (bool, Seq<u8>)| r.strong_matches(e) == strong_match(etag@, e) by {
                if strong_match(etag@, e) {
                    assert(strong_match(tags@[0]@, e));
                }
            }
            assert forall|e: (bool, Seq<u8>)| r.weak_matches(e) == weak_match(etag@, e) by {
                if weak_match(etag@, e) {
                    assert(weak_match(tags@[0]@, e));
                }
            }
            assert(tags@ =~= seq![etag]);
        }
        r
    }

    /// Whether the condition matches `etag` by strong comparison.
    pub fn matches_strong(&self, etag: &EntityTag) -> (r: bool)
        ensures
            r == self.strong_matches(etag@),
    {
        match self {
            TagCondition::Any => true,
            TagCondition::Tags(tags) => any_strong_eq(tags, etag),
        }
    }

    /// Whether the condition matches `etag` by weak comparison.
    pub fn matches_weak(&self, etag: &EntityTag) -> (r: bool)
        ensures
            r == self.weak_matches(etag@),
    {
        match self {
            TagCondition::Any => true,
            TagCondition::Tags(tags) => any_weak_eq(tags, etag),
        }
    }
}

fn any_strong_eq(tags: &Vec<EntityTag>, etag: &EntityTag) -> (r: bool)
    ensures
        r == some_strong_match(tags@, etag@),
{
    let mut i: usize = 0;
    while i < tags.len()
        invariant
            i <= tags@.len(),
            forall|k: int| 0 <= k < i ==> !strong_match((#[trigger] tags@[k])@, etag@),
        decreases tags@.len() - i,
    {
        if tags[i].strong_eq(etag) {
            assert(strong_match(tags@[i as int]@, etag@));
            return true;
        }
        i += 1;
    }
    false
}

fn any_weak_eq(tags: &Vec<EntityTag>, etag: &EntityTag) -> (r: bool)
    ensures
        r == some_weak_match(tags@, etag@),
{
    let mut i: usize = 0;
    while i < tags.len()
        invariant
            i <= tags@.len(),
            forall|k: int| 0 <= k < i ==> !weak_match((#[trigger] tags@[k])@, etag@),
        decreases tags@.len() - i,
    {
        if tags[i].weak_eq(etag) {
            assert(weak_match(tags@[i as int]@, etag@));
            return true;
        }
        i += 1;
    }
    false
}

/// The value of `If-Range`: a tag, or a date in seconds since the epoch.
#[derive(Debug, Clone, PartialEq, Eq)]
pub enum IfRange {
    ETag(EntityTag),
    Date(u64),
}

/// The value of `If-Range` as a value.
pub enum IfRangeView {
    ETag((bool, Seq<u8>)),
    Date(u64),
}

impl View for IfRange {
    type V = IfRangeView;

    open spec fn view(&self) -> IfRangeView {
        match self {
            IfRange::ETag(tag) => IfRangeView::ETag(tag@),
            IfRange::Date(date) => IfRangeView::Date(*date),
        }
    }
}

/// One byte-range-spec of a `Range` header field.
#[derive(Debug, Clone, Copy, PartialEq, Eq, Structural)]
pub enum ByteRange {
    /// `first-last`, both inclusive.
    FromTo(u64, u64),
    /// `first-`: from there to the end.
    From(u64),
    /// `-length`: the last `length` bytes.
    Suffix(u64),
    /// `-`: neither a position nor a length.
    Unbounded,
}

/// The value of a `Range` header field in bytes: its specs in order.
#[derive(Debug, Clone, PartialEq, Eq)]
pub struct Range {
    pub specs: Vec<ByteRange>,
}

impl Range {
    /// The range that holds one spec.
    pub fn bytes(spec: ByteRange) -> (r: Range)
        ensures
            r.specs@ == seq![spec],
    {
        let mut specs: Vec<ByteRange> = Vec::new();
        specs.push(spec);
        Range { specs }
    }
}

/// The value of a `Content-Range` header field in bytes.
#[derive(Debug, Clone, Copy, PartialEq, Eq)]
pub struct ContentRange {
    /// First and last byte sent, both inclusive.
    pub range: Option<(u64, u64)>,
    pub complete_length: Option<u64>,
}

impl ContentRange {
    /// `bytes first-last/length`, with `*` for a part that is not known.
    pub open spec fn wire(&self) -> Seq<u8> {
        "bytes ".spec_bytes() + (match self.range {
            Some((first, last)) => decimal(first as nat) + seq![DASH] + decimal(last as nat),
            None => seq![ASTERISK],
        }) + seq![SLASH] + (match self.complete_length {
            Some(n) => decimal(n as nat),
            None => seq![ASTERISK],
        })
    }

    /// The first and the last byte that the range names.
    pub fn bytes_range(&self) -> (r: Option<(u64, u64)>)
        ensures
            r == self.range,
    {
        self.range
    }

    /// The header field value that carries this range.
    pub fn header_value(&self) -> (r: Vec<u8>)
        ensures
            r@ == self.wire(),
    {
        let mut out: Vec<u8> = Vec::new();
        append(&mut out, "bytes ".as_bytes());
        match self.range {
            Some((first, last)) => {
                append_decimal(&mut out, first);
                out.push(DASH);
                append_decimal(&mut out, last);
            },
            None => {
                out.push(ASTERISK);
            },
        }
        out.push(SLASH);
        match self.complete_length {
            Some(n) => {
                append_decimal(&mut out, n);
            },
            None => {
                out.push(ASTERISK);
            },
        }
        assert(out@ =~= self.wire());
        out
    }
}

} // verus!
