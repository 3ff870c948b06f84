//! Addresses of web resources, put together from their parts.
use vstd::prelude::*;

use reqwest::Url;

use crate::text::texts;

verus! {

/// Why an address could not be built.
pub enum LinkError {
    /// What it was to be built on is no address.
    Invalid(String),
    /// It was to be built on an address without a path.
    CannotBeABase,
}

/// The address that a result holds, or why it could not be built: what is wrong
/// with the one that it was to be built on, or `None` where that has no path.
pub open spec fn outcome(result: Result<String, LinkError>) -> Result<Seq<char>, Option<Seq<char>>> {
    match result {
        Ok(link) => Ok(link@),
        Err(LinkError::Invalid(reason)) => Err(Some(reason@)),
        Err(LinkError::CannotBeABase) => Err(None),
    }
}

/// The characters of each name and of each value.
pub open spec fn pair_texts(pairs: Seq<(&str, &str)>) -> Seq<(Seq<char>, Seq<char>)> {
    pairs.map_values(|pair: (&str, &str)| (pair.0@, pair.1@))
}

/// Whether a character stands for itself wherever it stands in an address, and
/// begins neither a query nor a fragment.
pub open spec fn plain_char(c: char) -> bool {
    'a' <= c <= 'z' || '0' <= c <= '9' || c == ':' || c == '/' || c == '.'
}

/// Whether a text holds such characters alone.
pub open spec fn plain(text: Seq<char>) -> bool {
    forall|i: int| 0 <= i < text.len() ==> plain_char(#[trigger] text[i])
}

/// Whether a character of ASCII is written as three in a segment of a path.
pub open spec fn coded(c: char) -> bool {
    c < ' ' || c == ' ' || c == '"' || c == '#' || c == '%' || c == '/' || c == '<' || c == '>' || c
        == '?' || c == '\\' || c == '`' || c == '{' || c == '}' || c == '\u{7f}'
}

/// How many bytes a character takes up in a segment of a path.
pub open spec fn char_room(c: char) -> nat {
    if c == '\t' || c == '\n' || c == '\r' {
        0
    } else if coded(c) {
        3
    } else if (c as u32) < 0x80 {
        1
    } else if (c as u32) < 0x800 {
        6
    } else if (c as u32) < 0x10000 {
        9
    } else {
        12
    }
}

/// How many bytes a segment takes up in a path.
pub open spec fn segment_room(segment: Seq<char>) -> nat
    decreases segment.len(),
{
    if segment.len() == 0 {
        0
    } else {
        segment_room(segment.drop_last()) + char_room(segment.last())
    }
}

/// How many bytes segments take up in a path, with a slash before each.
pub open spec fn room(segments: Seq<Seq<char>>) -> nat
    decreases segments.len(),
{
    if segments.len() == 0 {
        0
    } else {
        room(segments.drop_last()) + 1 + segment_room(segments.last())
    }
}

/// Whether `base` with `segments` at the end of its path is an address whose
/// offsets fit in 32 bits, as they have to. Reading a plain `base` makes it
/// longer by a few bytes at most.
pub open spec fn has_room(base: Seq<char>, segments: Seq<Seq<char>>) -> bool {
    base.len() + 16 + room(segments) <= u32::MAX
}

/// `base` with `segments` at the end of its path.
pub uninterp spec fn extended_link(base: Seq<char>, segments: Seq<Seq<char>>) -> Result<Seq<char>, Option<Seq<char>>>;

/// The address `link` with `pairs` at the end of its query.
pub uninterp spec fn queried_link(link: Seq<char>, pairs: Seq<(Seq<char>, Seq<char>)>) -> Seq<char>;

/// The address that `link` holds, with `pairs` at the end of its query; where
/// it holds none, why.
pub open spec fn then_queried(
    link: Result<Seq<char>, Option<Seq<char>>>,
    pairs: Seq<(Seq<char>, Seq<char>)>,
) -> Result<Seq<char>, Option<Seq<char>>> {
    match link {
        Ok(link) => Ok(queried_link(link, pairs)),
        Err(reason) => Err(reason),
    }
}

/// Calls `Url::parse`, and `PathSegmentsMut::extend` on the path of what it
/// gives: that is `push` for one segment after another. The name
/// `extended_link` stands for the address that comes of it, or the error.
#[verifier::external_body]
pub(crate) fn extend_link(base: &str, segments: &Vec<&str>) -> (link: Result<String, LinkError>)
    requires
        plain(base@),
        has_room(base@, texts(segments@)),
    ensures
        outcome(link) == extended_link(base@, texts(segments@)),
{
    let mut url = match Url::parse(base) {
        Ok(url) => url,
        Err(reason) => return Err(LinkError::Invalid(reason.to_string())),
    };
    match url.path_segments_mut() {
        Ok(mut path) => {
            path.extend(segments);
        },
        Err(()) => return Err(LinkError::CannotBeABase),
    }
    Ok(url.to_string())
}

/// Calls `Url::parse` and `PathSegmentsMut::extend` as `extend_link` does, and
/// `Serializer::extend_pairs` on the query of the address that comes of it: that
/// is `append_pair` for one pair after another, and does not fail. The name
/// `queried_link` stands for what it makes of that address.
#[verifier::external_body]
pub(crate) fn query_link(base: &str, segments: &Vec<&str>, pairs: &Vec<(&str, &str)>) -> (link:
    Result<String, LinkError>)
    requires
        plain(base@),
        has_room(base@, texts(segments@)),
    ensures
        outcome(link) == (match extended_link(base@, texts(segments@)) {
            Ok(extended) => Ok(queried_link(extended, pair_texts(pairs@))),
            Err(reason) => Err(reason),
        }),
{
    let mut url = match Url::parse(base) {
        Ok(url) => url,
        Err(reason) => return Err(LinkError::Invalid(reason.to_string())),
    };
    match url.path_segments_mut() {
        Ok(mut path) => {
            path.extend(segments);
        },
        Err(()) => return Err(LinkError::CannotBeABase),
    }
    url.query_pairs_mut().extend_pairs(pairs);
    Ok(url.to_string())
}

fn char_room_of(c: char) -> (bytes: u64)
    ensures
        bytes == char_room(c),
{
    if c == '\t' || c == '\n' || c == '\r' {
        0
    } else if c < ' ' || c == ' ' || c == '"' || c == '#' || c == '%' || c == '/' || c == '<' || c
        == '>' || c == '?' || c == '\\' || c == '`' || c == '{' || c == '}' || c == '\u{7f}' {
        3
    } else if (c as u32) < 0x80 {
        1
    } else if (c as u32) < 0x800 {
        6
    } else if (c as u32) < 0x10000 {
        9
    } else {
        12
    }
}

proof fn lemma_segment_room_grows(segment: Seq<char>, i: int)
    requires
        0 <= i <= segment.len(),
    ensures
        segment_room(segment.take(i)) <= segment_room(segment),
    decreases segment.len(),
{
    if i == segment.len() {
        assert(segment.take(i) == segment);
    } else {
        lemma_segment_room_grows(segment.drop_last(), i);
        assert(segment.drop_last().take(i) == segment.take(i));
    }
}

proof fn lemma_room_grows(segments: Seq<Seq<char>>, i: int)
    requires
        0 <= i <= segments.len(),
    ensures
        room(segments.take(i)) <= room(segments),
    decreases segments.len(),
{
    if i == segments.len() {
        assert(segments.take(i) == segments);
    } else {
        lemma_room_grows(segments.drop_last(), i);
        assert(segments.drop_last().take(i) == segments.take(i));
    }
}

/// Counts the bytes that `segment` takes up in a path; `None` where it takes up
/// over `max`.
pub fn segment_room_of(segment: &str, max: u64) -> (bytes: Option<u64>)
    requires
        max <= u32::MAX,
    ensures
        match bytes {
            Some(bytes) => bytes == segment_room(segment@) && bytes <= max,
            None => segment_room(segment@) > max,
        },
{
    let mut bytes: u64 = 0;
    for c in it: segment.chars()
        invariant
            it.seq() == segment@,
            bytes == segment_room(segment@.take(it.index() as int)),
            bytes <= max <= u32::MAX,
    {
        assert(segment@.take(it.index() + 1).drop_last() == segment@.take(it.index() as int));
        proof {
            lemma_segment_room_grows(segment@, it.index() + 1);
        }
        bytes = bytes + char_room_of(c);
        if bytes > max {
            return None;
        }
    }
    assert(segment@.take(segment@.len() as int) == segment@);
    Some(bytes)
}

/// Tells whether `base` with `segments` at the end of its path is an address
/// whose offsets fit.
pub fn is_short(base: &str, segments: &Vec<&str>) -> (short: bool)
    ensures
        short == has_room(base@, texts(segments@)),
{
    let ghost all = texts(segments@);
    let limit: u64 = u32::MAX as u64 - 16;
    let length = base.unicode_len();
    if length as u64 > limit {
        return false;
    }
    let mut left: u64 = limit - length as u64;
    for i in 0..segments.len()
        invariant
            all == texts(segments@),
            left <= u32::MAX,
            base@.len() + 16 + room(all.take(i as int)) + left == u32::MAX,
    {
        assert(all.take(i + 1).drop_last() == all.take(i as int));
        proof {
            lemma_room_grows(all, i + 1);
        }
        if left == 0 {
            return false;
        }
        match segment_room_of(segments[i], left - 1) {
            Some(bytes) => {
                left = left - 1 - bytes;
            },
            None => {
                return false;
            },
        }
    }
    assert(all.take(all.len() as int) == all);
    true
}

impl LinkError {
    /// The message of the error; `no_path` where the address has no path.
    pub open spec fn text(&self, no_path: Seq<char>) -> Seq<char> {
        match self {
            LinkError::Invalid(reason) => reason@,
            LinkError::CannotBeABase => no_path,
        }
    }

    /// Writes the message of the error; `no_path` where the address has no path.
    pub fn message(&self, no_path: &str) -> (text: String)
        ensures
            text@ == self.text(no_path@),
            self matches LinkError::Invalid(reason) ==> text@ == reason@,
            self is CannotBeABase ==> text@ == no_path@,
    {
        match self {
            LinkError::Invalid(reason) => reason.clone(),
            LinkError::CannotBeABase => no_path.to_owned(),
        }
    }
}

/// What came of building an address is told apart by its text alone.
pub proof fn outcomes_are_told_apart(link: String, reason: String)
    ensures
        outcome(Ok(link)) == Ok::<_, Option<Seq<char>>>(link@),
        outcome(Err(LinkError::Invalid(reason))) == Err::<Seq<char>, _>(Some(reason@)),
        outcome(Err(LinkError::CannotBeABase)) == Err::<Seq<char>, Option<Seq<char>>>(None),
{
}

/// Names and values keep their characters and their order.
pub proof fn pairs_keep_characters(pairs: Seq<(&str, &str)>)
    ensures
        pair_texts(pairs).len() == pairs.len(),
        forall|i: int|
            0 <= i < pairs.len() ==> #[trigger] pair_texts(pairs)[i] == (pairs[i].0@, pairs[i].1@),
{
}

/// A query is put to an address where there is one, and an error stays as it is.
pub proof fn errors_are_not_queried(
    link: Seq<char>,
    reason: Option<Seq<char>>,
    pairs: Seq<(Seq<char>, Seq<char>)>,
)
    ensures
        then_queried(Ok(link), pairs) == Ok::<_, Option<Seq<char>>>(queried_link(link, pairs)),
        then_queried(Err(reason), pairs) == Err::<Seq<char>, _>(reason),
{
}

/// The room that a segment takes up is that of its parts, and no character
/// takes up more than twelve bytes.
pub proof fn room_goes_char_by_char(a: Seq<char>, b: Seq<char>)
    ensures
        segment_room(a + b) == segment_room(a) + segment_room(b),
        segment_room(b) <= 12 * b.len(),
    decreases b.len(),
{
    if b.len() == 0 {
        assert(a + b == a);
    } else {
        room_goes_char_by_char(a, b.drop_last());
        assert((a + b).drop_last() == a + b.drop_last());
        assert((a + b).last() == b.last());
    }
}

/// The room that segments take up is that of each, and one byte more for each;
/// an address has room for them exactly where all of it fits in 32 bits.
pub proof fn room_goes_segment_by_segment(
    base: Seq<char>,
    a: Seq<Seq<char>>,
    b: Seq<Seq<char>>,
)
    ensures
        a.len() == 0 ==> room(a) == 0,
        a.len() == 1 ==> room(a) == segment_room(a[0]) + 1,
        room(a + b) == room(a) + room(b),
        has_room(base, a) <==> base.len() + room(a) <= 0xffff_ffef,
    decreases b.len(),
{
    if a.len() == 1 {
        assert(room(a.drop_last()) == 0);
    }
    if b.len() == 0 {
        assert(a + b == a);
    } else {
        room_goes_segment_by_segment(base, a, b.drop_last());
        assert((a + b).drop_last() == a + b.drop_last());
        assert((a + b).last() == b.last());
    }
}

/// A character that is not of ASCII takes up three bytes for each byte that it
/// has in UTF-8. Of ASCII, letters and digits take up one byte, tabs and line
/// ends none, and every other character one or three.
pub proof fn characters_take_up_room(c: char)
    ensures
        segment_room(seq![c]) == char_room(c),
        0x80 <= (c as int) < 0x800 ==> char_room(c) == 3 * 2,
        0x800 <= (c as int) < 0x10000 ==> char_room(c) == 3 * 3,
        0x10000 <= (c as int) ==> char_room(c) == 3 * 4,
        'a' <= c <= 'z' || 'A' <= c <= 'Z' || '0' <= c <= '9' ==> char_room(c) == 1,
        c == '\t' || c == '\n' || c == '\r' ==> char_room(c) == 0,
        (c as int) < 0x80 ==> char_room(c) == 1 || char_room(c) == 3 || c == '\t' || c == '\n' || c
            == '\r',
{
    assert(seq![c].drop_last() == Seq::<char>::empty());
    assert(segment_room(Seq::<char>::empty()) == 0);
}

} // verus!
