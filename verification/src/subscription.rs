//! Topic filters and subscriptions.

use crate::error::{Error, ErrorKind};
use crate::proto::QoS;
use vstd::prelude::*;
use vstd::utf8::encode_utf8;

verus! {

/// The character that separates the levels of a topic filter.
pub const TOPIC_SEPARATOR: char = '/';

/// The wildcard that stands for exactly one level.
pub const SINGLE_LEVEL_WILDCARD: char = '+';

/// The wildcard that stands for any number of levels.
pub const MULTI_LEVEL_WILDCARD: char = '#';

/// The largest number of bytes that the UTF-8 encoding of a topic filter may
/// have.
pub const MAX_TOPIC_FILTER_LEN: usize = 65535;

/// `String::push` of the standard library, taken on trust: after the call the
/// string holds the characters it held before, followed by `c`.
pub assume_specification[ String::push ](s: &mut String, c: char)
    ensures
        final(s)@ == old(s)@.push(c),
;

/// One level of a parsed topic filter.
#[derive(Clone, Debug, PartialEq, Eq)]
pub enum Segment {
    /// A level that matches exactly its own text. The text may be empty.
    Level(String),
    /// `+`: matches any one level.
    SingleLevelWildcard,
    /// `#`: matches this level and everything below it.
    MultiLevelWildcard,
}

/// The mathematical content of a [`Segment`].
pub enum SegmentView {
    Level(Seq<char>),
    SingleLevelWildcard,
    MultiLevelWildcard,
}

impl View for Segment {
    type V = SegmentView;

    open spec fn view(&self) -> SegmentView {
        match self {
            Segment::Level(text) => SegmentView::Level(text@),
            Segment::SingleLevelWildcard => SegmentView::SingleLevelWildcard,
            Segment::MultiLevelWildcard => SegmentView::MultiLevelWildcard,
        }
    }
}

/// The levels of `s`: the pieces between its separators. A string with `n`
/// separators has `n + 1` levels, some of which may be empty.
pub open spec fn levels(s: Seq<char>) -> Seq<Seq<char>>
    decreases s.len(),
{
    if s.len() == 0 {
        seq![Seq::<char>::empty()]
    } else {
        let before = levels(s.drop_last());
        if s.last() == TOPIC_SEPARATOR {
            before.push(Seq::<char>::empty())
        } else {
            before.update(before.len() - 1, before.last().push(s.last()))
        }
    }
}

/// Whether a wildcard character occurs in the level.
pub open spec fn has_wildcard(level: Seq<char>) -> bool {
    exists|i: int|
        0 <= i < level.len() && (#[trigger] level[i] == SINGLE_LEVEL_WILDCARD || level[i]
            == MULTI_LEVEL_WILDCARD)
}

/// The segment that a level stands for. A wildcard character must occupy its
/// level alone; a level that mixes one with anything else stands for nothing.
pub open spec fn segment_of(level: Seq<char>) -> Option<SegmentView> {
    if level.len() == 1 && level[0] == SINGLE_LEVEL_WILDCARD {
        Some(SegmentView::SingleLevelWildcard)
    } else if level.len() == 1 && level[0] == MULTI_LEVEL_WILDCARD {
        Some(SegmentView::MultiLevelWildcard)
    } else if has_wildcard(level) {
        None
    } else {
        Some(SegmentView::Level(level))
    }
}

/// Every level stands for a segment, and a multi-level wildcard is the last
/// level if it occurs at all.
pub open spec fn well_formed_levels(ls: Seq<Seq<char>>) -> bool {
    forall|i: int|
        0 <= i < ls.len() ==> {
            &&& (#[trigger] segment_of(ls[i])) is Some
            &&& segment_of(ls[i]) == Some(SegmentView::MultiLevelWildcard) ==> i == ls.len() - 1
        }
}

/// Whether `s` is a topic filter: at least one character, at most
/// [`MAX_TOPIC_FILTER_LEN`] bytes of UTF-8, no NUL character, and well-formed
/// levels.
pub open spec fn valid_topic_filter(s: Seq<char>) -> bool {
    &&& s.len() > 0
    &&& encode_utf8(s).len() <= MAX_TOPIC_FILTER_LEN
    &&& forall|i: int| 0 <= i < s.len() ==> s[i] != '\0'
    &&& well_formed_levels(levels(s))
}

/// The segments that a list of levels stands for.
pub open spec fn level_segments(ls: Seq<Seq<char>>) -> Seq<SegmentView> {
    ls.map_values(|level: Seq<char>| segment_of(level).unwrap())
}

/// The segments of the topic filter `s`, level by level.
pub open spec fn segments_of(s: Seq<char>) -> Seq<SegmentView> {
    level_segments(levels(s))
}

/// The mathematical content of a list of segments.
pub open spec fn segment_views(segments: Seq<Segment>) -> Seq<SegmentView> {
    segments.map_values(|s: Segment| s@)
}

/// A parsed topic filter: the list of its segments.
#[derive(Clone, Debug, PartialEq, Eq)]
pub struct TopicFilter {
    segments: Vec<Segment>,
}

impl View for TopicFilter {
    type V = Seq<SegmentView>;

    closed spec fn view(&self) -> Seq<SegmentView> {
        segment_views(self.segments@)
    }
}

/// What is known of the level that the parser is reading.
#[derive(Clone, Copy, PartialEq, Eq, Structural)]
enum LevelKind {
    /// No character yet.
    Empty,
    /// Exactly `+`.
    Single,
    /// Exactly `#`.
    Multi,
    /// At least one character and no wildcard.
    Plain,
    /// A wildcard together with another character.
    Mixed,
}

/// The kind of a level.
spec fn kind_of(level: Seq<char>) -> LevelKind {
    if level.len() == 0 {
        LevelKind::Empty
    } else if level.len() == 1 && level[0] == SINGLE_LEVEL_WILDCARD {
        LevelKind::Single
    } else if level.len() == 1 && level[0] == MULTI_LEVEL_WILDCARD {
        LevelKind::Multi
    } else if has_wildcard(level) {
        LevelKind::Mixed
    } else {
        LevelKind::Plain
    }
}

/// The kind of a level after one more character.
spec fn kind_after(kind: LevelKind, c: char) -> LevelKind {
    match kind {
        LevelKind::Empty => if c == SINGLE_LEVEL_WILDCARD {
            LevelKind::Single
        } else if c == MULTI_LEVEL_WILDCARD {
            LevelKind::Multi
        } else {
            LevelKind::Plain
        },
        LevelKind::Single | LevelKind::Multi | LevelKind::Mixed => LevelKind::Mixed,
        LevelKind::Plain => if c == SINGLE_LEVEL_WILDCARD || c == MULTI_LEVEL_WILDCARD {
            LevelKind::Mixed
        } else {
            LevelKind::Plain
        },
    }
}

/// Appending a character changes the kind of a level as `kind_after` says.
proof fn lemma_kind_push(level: Seq<char>, c: char)
    ensures
        kind_of(level.push(c)) == kind_after(kind_of(level), c),
{
    let longer = level.push(c);
    let n = level.len() as int;
    assert(longer[n] == c);
    if has_wildcard(level) {
        let i = choose|i: int|
            0 <= i < level.len() && (#[trigger] level[i] == SINGLE_LEVEL_WILDCARD || level[i]
                == MULTI_LEVEL_WILDCARD);
        assert(longer[i] == level[i]);
        assert(has_wildcard(longer));
    }
    if c == SINGLE_LEVEL_WILDCARD || c == MULTI_LEVEL_WILDCARD {
        assert(has_wildcard(longer));
    }
    if has_wildcard(longer) {
        let i = choose|i: int|
            0 <= i < longer.len() && (#[trigger] longer[i] == SINGLE_LEVEL_WILDCARD || longer[i]
                == MULTI_LEVEL_WILDCARD);
        if i < n {
            assert(level[i] == longer[i]);
            assert(has_wildcard(level));
        }
    }
    if n == 1 && (level[0] == SINGLE_LEVEL_WILDCARD || level[0] == MULTI_LEVEL_WILDCARD) {
        assert(longer[0] == level[0]);
        assert(has_wildcard(longer));
    }
}

/// The segment of a level follows from its kind.
proof fn lemma_kind_segment(level: Seq<char>)
    ensures
        segment_of(level) == match kind_of(level) {
            LevelKind::Single => Some(SegmentView::SingleLevelWildcard),
            LevelKind::Multi => Some(SegmentView::MultiLevelWildcard),
            LevelKind::Mixed => None,
            LevelKind::Empty | LevelKind::Plain => Some(SegmentView::Level(level)),
        },
{
}

/// The levels of a string that is one character longer.
proof fn lemma_levels_push(s: Seq<char>, c: char)
    ensures
        levels(s).len() >= 1,
        levels(s.push(c)) == (if c == TOPIC_SEPARATOR {
            levels(s).push(Seq::<char>::empty())
        } else {
            levels(s).update(levels(s).len() - 1, levels(s).last().push(c))
        }),
    decreases s.len(),
{
    if s.len() > 0 {
        lemma_levels_push(s.drop_last(), s.last());
        assert(s.drop_last().push(s.last()) =~= s);
    }
    assert(s.push(c).drop_last() =~= s);
}

impl TopicFilter {
    /// Whether all levels before the last stand for a segment other than the
    /// multi-level wildcard.
    spec fn inner_levels_ok(ls: Seq<Seq<char>>) -> bool {
        forall|i: int|
            0 <= i < ls.len() - 1 ==> {
                &&& (#[trigger] segment_of(ls[i])) is Some
                &&& segment_of(ls[i]) != Some(SegmentView::MultiLevelWildcard)
            }
    }

    /// Parses a topic filter.
    ///
    /// The text is cut into levels at each `/`. A level that is `+` or `#`
    /// alone is a wildcard; any other level must be free of both characters.
    /// `#` may only be the last level. The filter as a whole must have at
    /// least one character, no NUL character, and at most
    /// [`MAX_TOPIC_FILTER_LEN`] bytes.
    pub fn parse(s: &str) -> (parsed: Result<TopicFilter, Error>)
        ensures
            parsed is Ok <==> valid_topic_filter(s@),
            parsed matches Ok(filter) ==> filter@ == segments_of(s@),
            parsed matches Err(e) ==> e@ == ErrorKind::InvalidTopicFilter,
    {
        let byte_len = s.as_bytes().len();
        let mut segments: Vec<Segment> = Vec::new();
        let mut current = String::new();
        let mut kind = LevelKind::Empty;
        let mut ok = true;
        let mut seen_any = false;
        assert(s@.take(0) =~= Seq::<char>::empty());
        for c in it: s.chars()
            invariant
                it.seq() == s@,
                byte_len == encode_utf8(s@).len(),
                seen_any == (it.index() > 0),
                levels(s@.take(it.index() as int)).len() >= 1,
                current@ == levels(s@.take(it.index() as int)).last(),
                kind == kind_of(current@),
                ok == ((forall|j: int| 0 <= j < it.index() ==> s@[j] != '\0')
                    && Self::inner_levels_ok(levels(s@.take(it.index() as int)))),
                ok ==> segment_views(segments@) == level_segments(
                    levels(s@.take(it.index() as int)).drop_last(),
                ),
        {
            let ghost i = it.index() as int;
            let ghost before = levels(s@.take(i));
            proof {
                assert(s@.take(i + 1) =~= s@.take(i).push(c));
                lemma_levels_push(s@.take(i), c);
                lemma_kind_push(current@, c);
                lemma_kind_segment(current@);
            }
            seen_any = true;
            if c == '\0' {
                ok = false;
            }
            if c == TOPIC_SEPARATOR {
                let ghost after = before.push(Seq::<char>::empty());
                let ghost taken = segments@;
                match kind {
                    LevelKind::Single => {
                        if ok {
                            segments.push(Segment::SingleLevelWildcard);
                        }
                    },
                    LevelKind::Multi | LevelKind::Mixed => {
                        ok = false;
                    },
                    LevelKind::Empty | LevelKind::Plain => {
                        if ok {
                            segments.push(Segment::Level(current));
                        }
                    },
                }
                current = String::new();
                kind = LevelKind::Empty;
                proof {
                    assert(after.drop_last() =~= before);
                    assert(before.drop_last().push(before.last()) =~= before);
                    if ok {
                        assert forall|j: int| 0 <= j < before.len() implies segments@[j]@
                            == segment_of(before[j]).unwrap() by {
                            if j < before.len() - 1 {
                                assert(segment_views(taken)[j] == level_segments(
                                    before.drop_last(),
                                )[j]);
                            }
                        }
                        assert(segment_views(segments@) =~= level_segments(after.drop_last()));
                    }
                    assert(Self::inner_levels_ok(before) && segment_of(before.last()) is Some
                        && segment_of(before.last()) != Some(SegmentView::MultiLevelWildcard)
                        ==> Self::inner_levels_ok(after));
                    if Self::inner_levels_ok(after) {
                        assert forall|j: int| 0 <= j < before.len() - 1 implies (
                        #[trigger] segment_of(before[j])) is Some && segment_of(before[j]) != Some(
                            SegmentView::MultiLevelWildcard,
                        ) by {
                            assert(after[j] == before[j]);
                        }
                        assert(after[before.len() - 1] == before.last());
                    }
                }
            } else {
                let ghost after = before.update(before.len() - 1, before.last().push(c));
                current.push(c);
                kind = match kind {
                    LevelKind::Empty => if c == SINGLE_LEVEL_WILDCARD {
                        LevelKind::Single
                    } else if c == MULTI_LEVEL_WILDCARD {
                        LevelKind::Multi
                    } else {
                        LevelKind::Plain
                    },
                    LevelKind::Single | LevelKind::Multi | LevelKind::Mixed => LevelKind::Mixed,
                    LevelKind::Plain => if c == SINGLE_LEVEL_WILDCARD || c
                        == MULTI_LEVEL_WILDCARD {
                        LevelKind::Mixed
                    } else {
                        LevelKind::Plain
                    },
                };
                proof {
                    assert(after.drop_last() =~= before.drop_last());
                    assert(Self::inner_levels_ok(after) == Self::inner_levels_ok(before)) by {
                        assert forall|j: int| 0 <= j < before.len() - 1 implies after[j]
                            == before[j] by {}
                    }
                }
            }
        }
        proof {
            assert(s@.take(s@.len() as int) =~= s@);
            lemma_kind_segment(current@);
        }
        let ghost ls = levels(s@);
        let ghost taken = segments@;
        if !seen_any || byte_len > MAX_TOPIC_FILTER_LEN || !ok {
            proof {
                if seen_any && byte_len <= MAX_TOPIC_FILTER_LEN && well_formed_levels(ls) {
                    assert(Self::inner_levels_ok(ls));
                }
            }
            return Err(Error::new(ErrorKind::InvalidTopicFilter));
        }
        match kind {
            LevelKind::Single => {
                segments.push(Segment::SingleLevelWildcard);
            },
            LevelKind::Multi => {
                segments.push(Segment::MultiLevelWildcard);
            },
            LevelKind::Mixed => {
                proof {
                    assert(segment_of(ls[ls.len() - 1]) is None);
                }
                return Err(Error::new(ErrorKind::InvalidTopicFilter));
            },
            LevelKind::Empty | LevelKind::Plain => {
                segments.push(Segment::Level(current));
            },
        }
        proof {
            assert(ls.drop_last().push(ls.last()) =~= ls);
            assert forall|j: int| 0 <= j < ls.len() implies segments@[j]@ == segment_of(
                ls[j],
            ).unwrap() by {
                if j < ls.len() - 1 {
                    assert(segment_views(taken)[j] == level_segments(ls.drop_last())[j]);
                }
            }
            assert(segment_views(segments@) =~= segments_of(s@));
            assert(well_formed_levels(ls));
        }
        Ok(TopicFilter { segments })
    }

    /// The segments of the filter, first level first.
    pub fn segments(&self) -> (segments: &Vec<Segment>)
        ensures
            segment_views(segments@) == self@,
    {
        &self.segments
    }
}

/// A subscription: a parsed topic filter and the highest quality of service
/// at which messages are delivered on it.
#[derive(Clone, Debug, PartialEq, Eq)]
pub struct Subscription {
    filter: TopicFilter,
    max_qos: QoS,
}

/// The mathematical content of a [`Subscription`].
pub struct SubscriptionView {
    pub filter: Seq<SegmentView>,
    pub max_qos: QoS,
}

impl View for Subscription {
    type V = SubscriptionView;

    closed spec fn view(&self) -> SubscriptionView {
        SubscriptionView { filter: self.filter@, max_qos: self.max_qos }
    }
}

impl Subscription {
    /// The subscription to `filter` at `max_qos`.
    pub fn new(filter: TopicFilter, max_qos: QoS) -> (subscription: Subscription)
        ensures
            subscription@ == (SubscriptionView { filter: filter@, max_qos }),
    {
        Subscription { filter, max_qos }
    }

    /// The topic filter.
    pub fn filter(&self) -> (filter: &TopicFilter)
        ensures
            filter@ == self@.filter,
    {
        &self.filter
    }

    /// The highest quality of service of the subscription.
    pub fn max_qos(&self) -> (max_qos: &QoS)
        ensures
            *max_qos == self@.max_qos,
    {
        &self.max_qos
    }
}

} // verus!
