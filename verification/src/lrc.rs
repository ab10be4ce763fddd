//! Time-stamped lyrics in the LRC format: a global offset and a timeline of
//! captions, read from text, looked up by time, adjusted and written back.

use crate::player::PlayerTimeUnit;
use crate::text::{
    chars_of, find_char, is_digit, is_space, lemma_padded2, lemma_position, lemma_signed_decimal,
    lemma_trimmed_same, padded2, parse_i64, parse_unsigned, position, push_chars, push_padded2,
    push_signed_decimal, signed_decimal, signed_of, string_of, trim, trimmed, unsigned_of,
};
use vstd::prelude::*;
use vstd::string::StringExecFns;

verus! {

/// What a caption is: a time in milliseconds and the text shown from then on.
pub struct CaptionView {
    pub timestamp: int,
    pub text: Seq<char>,
}

/// What a lyric is: an offset in milliseconds and its captions in order.
pub struct LyricView {
    pub offset: int,
    pub captions: Seq<CaptionView>,
}

/// A caption for a specific time.
#[derive(Debug, PartialEq, Eq)]
pub struct Caption {
    /// Timestamp in milliseconds.
    timestamp: i64,
    /// The text shown from that time on.
    text: String,
}

/// An offset and the captions of one song.
#[derive(Clone, Debug, PartialEq, Eq)]
pub struct Lyric {
    /// Offset in milliseconds; a positive one delays the lyric.
    pub offset: i64,
    /// The captions.
    pub captions: Vec<Caption>,
}

impl View for Caption {
    type V = CaptionView;

    closed spec fn view(&self) -> CaptionView {
        CaptionView { timestamp: self.timestamp as int, text: self.text@ }
    }
}

/// The captions of `s` as timestamps and texts.
pub open spec fn caption_views(s: Seq<Caption>) -> Seq<CaptionView> {
    Seq::new(s.len(), |i: int| s[i]@)
}

impl View for Lyric {
    type V = LyricView;

    open spec fn view(&self) -> LyricView {
        LyricView { offset: self.offset as int, captions: caption_views(self.captions@) }
    }
}

impl Clone for Caption {
    fn clone(&self) -> (r: Self)
        ensures
            r@ == self@,
    {
        Caption { timestamp: self.timestamp, text: self.text.clone() }
    }
}

/// Whether the captions `s` stand in order of time, earliest first.
pub open spec fn ordered(s: Seq<CaptionView>) -> bool {
    forall|i: int, j: int| 0 <= i <= j < s.len() ==> s[i].timestamp <= s[j].timestamp
}

/// Whether each caption of `s` comes two seconds or more after the one
/// before it.
pub open spec fn spaced(s: Seq<CaptionView>) -> bool {
    forall|i: int, j: int|
        0 <= i && j == i + 1 && j < s.len() ==> #[trigger] s[j].timestamp - #[trigger] s[i].timestamp
            >= 2000
}

/// The captions of `s` whose time is `t`, in the order in which they stand.
pub open spec fn with_time(s: Seq<CaptionView>, t: int) -> Seq<CaptionView>
    decreases s.len(),
{
    if s.len() == 0 {
        s
    } else if s[0].timestamp == t {
        seq![s[0]] + with_time(s.skip(1), t)
    } else {
        with_time(s.skip(1), t)
    }
}

/// `s` with `c` put in before the first caption that is not earlier than `c`.
pub open spec fn insert_before(c: CaptionView, s: Seq<CaptionView>) -> Seq<CaptionView>
    decreases s.len(),
{
    if s.len() > 0 && s[0].timestamp < c.timestamp {
        seq![s[0]] + insert_before(c, s.skip(1))
    } else {
        seq![c] + s
    }
}

/// The captions of `s` in order of time, those of one time in the order in
/// which they stand in `s`.
pub open spec fn stable_sorted(s: Seq<CaptionView>) -> Seq<CaptionView>
    decreases s.len(),
{
    if s.len() == 0 {
        s
    } else {
        insert_before(s[0], stable_sorted(s.skip(1)))
    }
}

/// Putting a caption in keeps the number of captions but for the new one,
/// keeps the order of time, and puts the new caption in front of those of
/// its own time.
pub proof fn lemma_insert_before(c: CaptionView, s: Seq<CaptionView>)
    ensures
        insert_before(c, s).len() == s.len() + 1,
        ordered(s) ==> ordered(insert_before(c, s)),
        with_time(insert_before(c, s), c.timestamp) == seq![c] + with_time(s, c.timestamp),
        forall|t: int|
            t != c.timestamp ==> #[trigger] with_time(insert_before(c, s), t) == with_time(s, t),
        forall|i: int|
            0 <= i < s.len() + 1 ==> (#[trigger] insert_before(c, s)[i] == c || (exists|j: int|
                0 <= j < s.len() && insert_before(c, s)[i] == s[j])),
    decreases s.len(),
{
    let r = insert_before(c, s);
    if s.len() > 0 && s[0].timestamp < c.timestamp {
        let tail = s.skip(1);
        let rt = insert_before(c, tail);
        lemma_insert_before(c, tail);
        assert(r.skip(1) == rt);
        assert(r[0] == s[0]);
        assert forall|t: int| t != c.timestamp implies #[trigger] with_time(r, t) == with_time(
            s,
            t,
        ) by {
            assert(with_time(rt, t) == with_time(tail, t));
        }
        assert forall|i: int| 0 <= i < s.len() + 1 implies (#[trigger] r[i] == c || (exists|j: int|
            0 <= j < s.len() && r[i] == s[j])) by {
            if i == 0 {
                assert(r[0] == s[0]);
            } else {
                assert(r[i] == rt[i - 1]);
                if rt[i - 1] != c {
                    let j = choose|j: int| 0 <= j < tail.len() && rt[i - 1] == tail[j];
                    assert(tail[j] == s[j + 1]);
                }
            }
        }
        if ordered(s) {
            assert(ordered(tail)) by {
                assert forall|i: int, j: int| 0 <= i <= j < tail.len() implies tail[i].timestamp
                    <= tail[j].timestamp by {
                    assert(tail[i] == s[i + 1] && tail[j] == s[j + 1]);
                }
            }
            assert forall|i: int, j: int| 0 <= i <= j < r.len() implies r[i].timestamp
                <= r[j].timestamp by {
                if i == 0 {
                    if j > 0 {
                        assert(r[j] == rt[j - 1]);
                        if rt[j - 1] != c {
                            let k = choose|k: int| 0 <= k < tail.len() && rt[j - 1] == tail[k];
                            assert(tail[k] == s[k + 1]);
                        }
                    }
                } else {
                    assert(r[i] == rt[i - 1] && r[j] == rt[j - 1]);
                }
            }
        }
    } else {
        assert(r.skip(1) == s);
        assert(r[0] == c);
        assert forall|t: int| t != c.timestamp implies #[trigger] with_time(r, t) == with_time(
            s,
            t,
        ) by {
        }
        assert forall|i: int| 0 <= i < s.len() + 1 implies (#[trigger] r[i] == c || (exists|j: int|
            0 <= j < s.len() && r[i] == s[j])) by {
            if i > 0 {
                assert(r[i] == s[i - 1]);
            }
        }
        if ordered(s) {
            assert forall|i: int, j: int| 0 <= i <= j < r.len() implies r[i].timestamp
                <= r[j].timestamp by {
                if i == 0 {
                    if j > 0 {
                        assert(r[j] == s[j - 1]);
                        assert(s[0].timestamp <= s[j - 1].timestamp);
                    }
                } else {
                    assert(r[i] == s[i - 1] && r[j] == s[j - 1]);
                }
            }
        }
    }
}

/// Sorting by time gives captions in order of time, and for each time the
/// captions that stood there before, in their old order: nothing is lost,
/// added or, among equals, moved.
pub proof fn lemma_stable_sorted(s: Seq<CaptionView>)
    ensures
        stable_sorted(s).len() == s.len(),
        ordered(stable_sorted(s)),
        forall|t: int| #[trigger] with_time(stable_sorted(s), t) == with_time(s, t),
    decreases s.len(),
{
    if s.len() > 0 {
        let tail = stable_sorted(s.skip(1));
        lemma_stable_sorted(s.skip(1));
        lemma_insert_before(s[0], tail);
        assert forall|t: int| #[trigger] with_time(stable_sorted(s), t) == with_time(s, t) by {
            assert(with_time(tail, t) == with_time(s.skip(1), t));
            if t != s[0].timestamp {
                assert(with_time(insert_before(s[0], tail), t) == with_time(tail, t));
            }
        }
    }
}

/// Where every caption before index `p` is earlier than `c` and the one at
/// `p` is not, `c` goes in at `p`.
pub proof fn lemma_insert_before_at(c: CaptionView, s: Seq<CaptionView>, p: int)
    requires
        0 <= p <= s.len(),
        forall|j: int| 0 <= j < p ==> s[j].timestamp < c.timestamp,
        p < s.len() ==> s[p].timestamp >= c.timestamp,
    ensures
        insert_before(c, s) == s.insert(p, c),
    decreases s.len(),
{
    if p > 0 {
        let tail = s.skip(1);
        assert forall|j: int| 0 <= j < p - 1 implies tail[j].timestamp < c.timestamp by {
            assert(tail[j] == s[j + 1]);
        }
        lemma_insert_before_at(c, tail, p - 1);
        assert(seq![s[0]] + tail.insert(p - 1, c) =~= s.insert(p, c));
    } else {
        assert(seq![c] + s =~= s.insert(0, c));
    }
}

/// Sorted captions stay as they are when sorted again.
pub proof fn lemma_stable_sorted_of_ordered(s: Seq<CaptionView>)
    requires
        ordered(s),
    ensures
        stable_sorted(s) == s,
    decreases s.len(),
{
    if s.len() > 0 {
        let tail = s.skip(1);
        assert(ordered(tail)) by {
            assert forall|i: int, j: int| 0 <= i <= j < tail.len() implies tail[i].timestamp
                <= tail[j].timestamp by {
                assert(tail[i] == s[i + 1] && tail[j] == s[j + 1]);
            }
        }
        lemma_stable_sorted_of_ordered(tail);
        if tail.len() > 0 {
            assert(tail[0] == s[1]);
        }
        assert(seq![s[0]] + tail =~= s);
    }
}

/// The captions in order of time; captions of one time keep their order.
pub fn sort_by_time(v: Vec<Caption>) -> (r: Vec<Caption>)
    ensures
        caption_views(r@) == stable_sorted(caption_views(v@)),
        ordered(caption_views(r@)),
        r@.len() == v@.len(),
        forall|t: int| #[trigger]
            with_time(caption_views(r@), t) == with_time(caption_views(v@), t),
{
    let ghost all = caption_views(v@);
    let mut rest = v;
    let mut out: Vec<Caption> = Vec::new();
    assert(all.skip(all.len() as int) == Seq::<CaptionView>::empty());
    assert(caption_views(out@) == Seq::<CaptionView>::empty());
    while rest.len() > 0
        invariant
            rest@.len() <= all.len(),
            caption_views(rest@) == all.take(rest@.len() as int),
            caption_views(out@) == stable_sorted(all.skip(rest@.len() as int)),
        decreases rest@.len(),
    {
        let ghost n = rest@.len() as int;
        let ghost sorted = caption_views(out@);
        let ghost before = rest@;
        let c = rest.pop().unwrap();
        assert(c@ == all[n - 1]) by {
            assert(caption_views(before)[n - 1] == all.take(n)[n - 1]);
        }
        assert(caption_views(rest@) == all.take(n - 1)) by {
            assert forall|i: int| 0 <= i < n - 1 implies caption_views(rest@)[i] == all.take(
                n - 1,
            )[i] by {
                assert(caption_views(before)[i] == all.take(n)[i]);
            }
            assert(caption_views(rest@) =~= all.take(n - 1));
        }
        let mut p: usize = 0;
        while p < out.len() && out[p].timestamp < c.timestamp
            invariant
                p <= out@.len(),
                sorted == caption_views(out@),
                forall|j: int| 0 <= j < p ==> sorted[j].timestamp < c@.timestamp,
            decreases out@.len() - p,
        {
            assert(sorted[p as int] == out@[p as int]@);
            p += 1;
        }
        proof {
            if p < out@.len() {
                assert(sorted[p as int] == out@[p as int]@);
            }
            lemma_insert_before_at(c@, sorted, p as int);
            assert(all.skip(n - 1)[0] == all[n - 1]);
            assert(all.skip(n - 1).skip(1) == all.skip(n));
        }
        out.insert(p, c);
        assert(caption_views(out@) =~= sorted.insert(p as int, c@));
    }
    proof {
        assert(all.skip(0) == all);
        lemma_stable_sorted(all);
    }
    out
}

/// The caption in which `b` has been joined to `a`: the time of `a`, and
/// both texts with two spaces between them.
pub open spec fn joined(a: CaptionView, b: CaptionView) -> CaptionView {
    CaptionView { timestamp: a.timestamp, text: a.text + seq![' ', ' '] + b.text }
}

/// The captions `s` with each caption joined to the one kept before it where
/// it comes less than two seconds after that one's time.
pub open spec fn merged(s: Seq<CaptionView>) -> Seq<CaptionView>
    decreases s.len(),
{
    if s.len() == 0 {
        s
    } else {
        let init = merged(s.drop_last());
        let c = s.last();
        if init.len() > 0 && c.timestamp - init.last().timestamp < 2000 {
            init.drop_last().push(joined(init.last(), c))
        } else {
            init.push(c)
        }
    }
}

/// Merging keeps the first caption's time, never ends later than the
/// captions it was given, and turns captions in order of time into captions
/// in order that are two seconds or more apart.
pub proof fn lemma_merged(s: Seq<CaptionView>)
    ensures
        merged(s).len() <= s.len(),
        s.len() > 0 ==> merged(s).len() > 0 && merged(s)[0].timestamp == s[0].timestamp,
        ordered(s) && s.len() > 0 ==> merged(s).last().timestamp <= s.last().timestamp,
        ordered(s) ==> ordered(merged(s)) && spaced(merged(s)),
        forall|i: int|
            0 <= i < merged(s).len() ==> exists|j: int|
                0 <= j < s.len() && (#[trigger] merged(s)[i]).timestamp == s[j].timestamp,
    decreases s.len(),
{
    if s.len() > 0 {
        let front = s.drop_last();
        let init = merged(front);
        let c = s.last();
        let m = merged(s);
        lemma_merged(front);
        assert forall|i: int| 0 <= i < m.len() implies exists|j: int|
            0 <= j < s.len() && (#[trigger] m[i]).timestamp == s[j].timestamp by {
            if i < init.len() {
                let j = choose|j: int| 0 <= j < front.len() && init[i].timestamp == front[j].timestamp;
                assert(front[j] == s[j]);
                assert(m[i].timestamp == init[i].timestamp);
            } else {
                assert(m[i].timestamp == s[s.len() - 1].timestamp);
            }
        }
        if front.len() > 0 {
            assert(front[0] == s[0]);
        }
        if ordered(s) {
            assert(ordered(front)) by {
                assert forall|i: int, j: int| 0 <= i <= j < front.len() implies front[i].timestamp
                    <= front[j].timestamp by {
                    assert(front[i] == s[i] && front[j] == s[j]);
                }
            }
            if front.len() > 0 {
                assert(front.last() == s[s.len() - 2]);
                assert(init.last().timestamp <= c.timestamp);
            }
            assert forall|i: int, j: int| 0 <= i <= j < m.len() implies m[i].timestamp
                <= m[j].timestamp by {
                if i < init.len() {
                    assert(m[i].timestamp == init[i].timestamp);
                    assert(init[i].timestamp <= init.last().timestamp);
                }
                if j < init.len() {
                    assert(m[j].timestamp == init[j].timestamp);
                }
            }
            assert forall|i: int, j: int| 0 <= i && j == i + 1 && j < m.len() implies #[trigger] m[j].timestamp
                - #[trigger] m[i].timestamp >= 2000 by {
                assert(m[i].timestamp == init[i].timestamp);
                if j < init.len() {
                    assert(m[j].timestamp == init[j].timestamp);
                }
            }
        }
    }
}

/// The number of captions at the start of `s` whose time is `t` or earlier.
pub open spec fn leading_through(s: Seq<CaptionView>, t: int) -> nat
    decreases s.len(),
{
    if s.len() > 0 && s[0].timestamp <= t {
        1 + leading_through(s.skip(1), t)
    } else {
        0
    }
}

/// The index of the caption that is current at time `t`: the last of the
/// captions at the start of `s` that are not later than `t`, or the first
/// caption where that one is later.
pub open spec fn current_index(s: Seq<CaptionView>, t: int) -> int {
    if leading_through(s, t) == 0 {
        0
    } else {
        leading_through(s, t) - 1
    }
}

/// Whether `i` is the index of the caption of `s` that is current at `t`.
pub open spec fn is_current(s: Seq<CaptionView>, t: int, i: int) -> bool {
    &&& 0 <= i < s.len()
    &&& s[0].timestamp > t ==> i == 0
    &&& s[0].timestamp <= t ==> {
        &&& forall|j: int| 0 <= j <= i ==> (#[trigger] s[j]).timestamp <= t
        &&& i + 1 < s.len() ==> s[i + 1].timestamp > t
    }
}

/// Where the first `k` captions are not later than `t` and the next one is,
/// `k` captions lead.
pub proof fn lemma_leading_through(s: Seq<CaptionView>, t: int, k: int)
    requires
        0 <= k <= s.len(),
        forall|j: int| 0 <= j < k ==> (#[trigger] s[j]).timestamp <= t,
        k < s.len() ==> s[k].timestamp > t,
    ensures
        leading_through(s, t) == k,
    decreases s.len(),
{
    if k > 0 {
        let tail = s.skip(1);
        assert(s[0].timestamp <= t);
        assert forall|j: int| 0 <= j < k - 1 implies (#[trigger] tail[j]).timestamp <= t by {
            assert(tail[j] == s[j + 1]);
        }
        if k < s.len() {
            assert(tail[k - 1] == s[k]);
        }
        lemma_leading_through(tail, t, k - 1);
    }
}

/// The current index is the one index that `is_current` describes. Among
/// captions in order of time it is the last caption that is not later than
/// `t`.
pub proof fn lemma_current_index(s: Seq<CaptionView>, t: int, i: int)
    requires
        s.len() > 0,
    ensures
        is_current(s, t, i) <==> i == current_index(s, t),
        ordered(s) ==> forall|j: int|
            0 <= j < s.len() && (#[trigger] s[j]).timestamp <= t ==> j <= current_index(s, t),
    decreases s.len(),
{
    lemma_leading_bounds(s, t);
    let n = leading_through(s, t) as int;
    if is_current(s, t, i) {
        if s[0].timestamp <= t {
            lemma_leading_through(s, t, i + 1);
        }
    }
    if ordered(s) {
        assert forall|j: int| 0 <= j < s.len() && (#[trigger] s[j]).timestamp <= t implies j
            <= current_index(s, t) by {
            if j >= n && n < s.len() {
                assert(s[n].timestamp <= s[j].timestamp);
            }
        }
    }
}

/// The captions that lead are not later than `t`, and the one after them is.
pub proof fn lemma_leading_bounds(s: Seq<CaptionView>, t: int)
    ensures
        leading_through(s, t) <= s.len(),
        forall|j: int| 0 <= j < leading_through(s, t) ==> (#[trigger] s[j]).timestamp <= t,
        leading_through(s, t) < s.len() ==> s[leading_through(s, t) as int].timestamp > t,
    decreases s.len(),
{
    if s.len() > 0 && s[0].timestamp <= t {
        let tail = s.skip(1);
        lemma_leading_bounds(tail, t);
        let n = leading_through(tail, t) as int;
        assert forall|j: int| 0 <= j < n + 1 implies (#[trigger] s[j]).timestamp <= t by {
            if j > 0 {
                assert(tail[j - 1] == s[j]);
            }
        }
        if n < tail.len() {
            assert(tail[n] == s[n + 1]);
        }
    }
}

impl Caption {
    /// A caption of the text `text` at `timestamp` milliseconds.
    pub fn new(timestamp: i64, text: String) -> (r: Self)
        ensures
            r@ == (CaptionView { timestamp: timestamp as int, text: text@ }),
    {
        Caption { timestamp, text }
    }

    /// The caption's time in milliseconds.
    pub fn timestamp(&self) -> (r: i64)
        ensures
            r == self@.timestamp,
    {
        self.timestamp
    }

    /// The caption's text.
    pub fn text(&self) -> (r: &str)
        ensures
            r@ == self@.text,
    {
        self.text.as_str()
    }
}

/// The index of the caption of `captions` that is current at `time`.
fn index_at(captions: &Vec<Caption>, time: i128) -> (r: usize)
    requires
        captions@.len() > 0,
    ensures
        r == current_index(caption_views(captions@), time as int),
        is_current(caption_views(captions@), time as int, r as int),
{
    let ghost s = caption_views(captions@);
    let mut index: usize = 0;
    let mut i: usize = 0;
    while i < captions.len() && time >= captions[i].timestamp as i128
        invariant
            i <= captions@.len(),
            s == caption_views(captions@),
            forall|j: int| 0 <= j < i ==> (#[trigger] s[j]).timestamp <= time,
            index == (if i == 0 {
                0
            } else {
                i - 1
            }),
        decreases captions@.len() - i,
    {
        assert(s[i as int] == captions@[i as int]@);
        index = i;
        i += 1;
    }
    proof {
        if i < captions@.len() {
            assert(s[i as int] == captions@[i as int]@);
        }
        lemma_leading_through(s, time as int, i as int);
        lemma_current_index(s, time as int, index as int);
    }
    index
}

/// The time in milliseconds at which `get_text` looks a caption up: the
/// time played plus two seconds plus the offset, but not below zero.
pub open spec fn text_time(millis: int, offset: int) -> int {
    if millis + 2000 + offset < 0 {
        0
    } else {
        millis + 2000 + offset
    }
}

/// The time in milliseconds at which `get_index` looks a caption up: the
/// time plus the offset, but not below zero.
pub open spec fn index_time(millis: int, offset: int) -> int {
    if millis + offset < 0 {
        0
    } else {
        millis + offset
    }
}

/// What `adjust_offset` makes of the lyric `l` for the time `millis` and the
/// change `delta`, both in milliseconds. At the first caption, or in the
/// first ten milliseconds, the offset moves; later on the current caption
/// alone moves, not below zero. The captions are then put in order of time.
pub open spec fn adjusted(l: LyricView, millis: int, delta: int) -> LyricView {
    if l.captions.len() == 0 {
        l
    } else {
        let i = current_index(l.captions, index_time(millis, l.offset));
        if i == 0 || millis < 11 {
            LyricView { offset: l.offset + delta, captions: stable_sorted(l.captions) }
        } else {
            let moved = if l.captions[i].timestamp + delta > 0 {
                l.captions[i].timestamp + delta
            } else {
                0
            };
            LyricView {
                offset: l.offset,
                captions: stable_sorted(
                    l.captions.update(
                        i,
                        CaptionView { timestamp: moved, text: l.captions[i].text },
                    ),
                ),
            }
        }
    }
}

/// Whether the offset and the times of `l` are numbers of 64 bits.
pub open spec fn representable(l: LyricView) -> bool {
    &&& i64::MIN <= l.offset <= i64::MAX
    &&& forall|i: int|
        0 <= i < l.captions.len() ==> i64::MIN <= (#[trigger] l.captions[i]).timestamp <= i64::MAX
}

impl Lyric {
    /// The text of the caption that is current at `time`, which counts from
    /// the start of the song, or `None` where there is no caption. The lookup
    /// runs two seconds ahead of `time` and takes the offset into account.
    pub fn get_text(&self, time: PlayerTimeUnit) -> (r: Option<&str>)
        requires
            time@ / 1_000_000 <= i64::MAX,
        ensures
            self@.captions.len() == 0 ==> r is None,
            self@.captions.len() > 0 ==> r is Some && r->0@ == self@.captions[current_index(
                self@.captions,
                text_time((time@ / 1_000_000) as int, self@.offset),
            )].text,
    {
        if self.captions.len() == 0 {
            return None;
        }
        let millis: i128 = time.as_millis() as i128;
        let mut adjusted_time: i128 = millis + 2000 + self.offset as i128;
        if adjusted_time < 0 {
            adjusted_time = 0;
        }
        let index = index_at(&self.captions, adjusted_time);
        assert(self@.captions[index as int] == self.captions@[index as int]@);
        Some(self.captions[index].text())
    }

    /// The index of the caption that is current at `time` milliseconds, or
    /// `None` where there is no caption. The offset is added to the time; a
    /// sum below zero counts as zero.
    pub fn get_index(&self, time: i64) -> (r: Option<usize>)
        ensures
            self@.captions.len() == 0 ==> r is None,
            self@.captions.len() > 0 ==> r is Some && r->0 == current_index(
                self@.captions,
                index_time(time as int, self@.offset),
            ) && is_current(self@.captions, index_time(time as int, self@.offset), r->0 as int),
    {
        if self.captions.len() == 0 {
            return None;
        }
        let sum: i128 = time as i128 + self.offset as i128;
        let adjusted_time: i128 = if sum < 0 {
            0
        } else {
            sum
        };
        Some(index_at(&self.captions, adjusted_time))
    }

    /// Moves the lyric by `offset` milliseconds at the song time `time`: the
    /// global offset where the current caption is the first one or the time
    /// is within the first ten milliseconds, else the current caption alone.
    /// The captions are then put in order of time.
    pub fn adjust_offset(&mut self, time: PlayerTimeUnit, offset: i64)
        requires
            time@ / 1_000_000 <= i64::MAX,
            representable(adjusted(old(self)@, (time@ / 1_000_000) as int, offset as int)),
        ensures
            final(self)@ == adjusted(old(self)@, (time@ / 1_000_000) as int, offset as int),
    {
        let ghost before = self@;
        let millis: i64 = time.as_millis() as i64;
        let ghost goal = adjusted(before, millis as int, offset as int);
        match self.get_index(millis) {
            Some(index) => {
                if index == 0 || millis < 11 {
                    self.offset = self.offset + offset;
                } else {
                    let stamp: i128 = self.captions[index].timestamp as i128 + offset as i128;
                    let moved: i128 = if stamp > 0 {
                        stamp
                    } else {
                        0
                    };
                    let ghost changed = before.captions.update(
                        index as int,
                        CaptionView {
                            timestamp: moved as int,
                            text: before.captions[index as int].text,
                        },
                    );
                    proof {
                        assert(before.captions[index as int] == self.captions@[index as int]@);
                        assert(goal.captions == stable_sorted(changed));
                        let c = changed[index as int];
                        lemma_stable_sorted(changed);
                        lemma_with_time_holds(changed, index as int);
                        assert(with_time(stable_sorted(changed), c.timestamp) == with_time(
                            changed,
                            c.timestamp,
                        ));
                        lemma_with_time_within(stable_sorted(changed), c);
                        let j = choose|j: int|
                            0 <= j < goal.captions.len() && goal.captions[j] == c;
                        assert(i64::MIN <= goal.captions[j].timestamp <= i64::MAX);
                    }
                    let text = self.captions[index].text.clone();
                    self.captions.set(index, Caption { timestamp: moved as i64, text });
                    assert(caption_views(self.captions@) =~= changed);
                }
            },
            None => {
                assert(before.captions =~= Seq::<CaptionView>::empty());
                assert(stable_sorted(before.captions) == before.captions);
            },
        }
        let mut captions: Vec<Caption> = Vec::new();
        core::mem::swap(&mut captions, &mut self.captions);
        self.captions = sort_by_time(captions);
    }

    /// Moves the lyric as `adjust_offset` does, where every time and the
    /// offset stay numbers of 64 bits, and tells whether it did. Where
    /// `time` or a result would be out of that range, nothing changes.
    pub fn try_adjust_offset(&mut self, time: PlayerTimeUnit, offset: i64) -> (r: bool)
        ensures
            r == (time@ / 1_000_000 <= i64::MAX && representable(
                adjusted(old(self)@, (time@ / 1_000_000) as int, offset as int),
            )),
            r ==> final(self)@ == adjusted(old(self)@, (time@ / 1_000_000) as int, offset as int),
            !r ==> *final(self) == *old(self),
    {
        let whole = time.as_millis();
        if whole > 0x7fff_ffff_ffff_ffffu128 {
            return false;
        }
        let millis: i64 = whole as i64;
        let ghost before = self@;
        let ghost goal = adjusted(before, millis as int, offset as int);
        match self.get_index(millis) {
            Some(index) => {
                if index == 0 || millis < 11 {
                    let sum: i128 = self.offset as i128 + offset as i128;
                    if sum < -0x8000_0000_0000_0000i128 || sum > 0x7fff_ffff_ffff_ffffi128 {
                        return false;
                    }
                    proof {
                        lemma_sorted_keeps(before.captions);
                        assert forall|i: int| 0 <= i < goal.captions.len() implies i64::MIN <= (
                        #[trigger] goal.captions[i]).timestamp <= i64::MAX by {
                            let j = choose|j: int|
                                0 <= j < before.captions.len() && goal.captions[i]
                                    == before.captions[j];
                            assert(before.captions[j] == self.captions@[j]@);
                        }
                    }
                } else {
                    let stamp: i128 = self.captions[index].timestamp as i128 + offset as i128;
                    let ghost moved = if stamp > 0 {
                        stamp as int
                    } else {
                        0int
                    };
                    let ghost changed = before.captions.update(
                        index as int,
                        CaptionView {
                            timestamp: moved,
                            text: before.captions[index as int].text,
                        },
                    );
                    proof {
                        assert(before.captions[index as int] == self.captions@[index as int]@);
                        assert(goal.captions == stable_sorted(changed));
                    }
                    if stamp > 0x7fff_ffff_ffff_ffffi128 {
                        proof {
                            let c = changed[index as int];
                            lemma_stable_sorted(changed);
                            lemma_with_time_holds(changed, index as int);
                            assert(with_time(stable_sorted(changed), c.timestamp) == with_time(
                                changed,
                                c.timestamp,
                            ));
                            lemma_with_time_within(stable_sorted(changed), c);
                            let j = choose|j: int|
                                0 <= j < goal.captions.len() && goal.captions[j] == c;
                            assert(goal.captions[j].timestamp > i64::MAX);
                        }
                        return false;
                    }
                    proof {
                        lemma_sorted_keeps(changed);
                        assert forall|i: int| 0 <= i < goal.captions.len() implies i64::MIN <= (
                        #[trigger] goal.captions[i]).timestamp <= i64::MAX by {
                            let j = choose|j: int|
                                0 <= j < changed.len() && goal.captions[i] == changed[j];
                            if j != index {
                                assert(changed[j] == self.captions@[j]@);
                            }
                        }
                    }
                }
            },
            None => {},
        }
        self.adjust_offset(time, offset);
        true
    }

    /// Joins each caption to the one kept before it where it comes less than
    /// two seconds after that one.
    pub fn merge_adjacent(&mut self)
        ensures
            final(self)@.offset == old(self)@.offset,
            final(self)@.captions == merged(old(self)@.captions),
            ordered(old(self)@.captions) ==> ordered(final(self)@.captions) && spaced(
                final(self)@.captions,
            ),
    {
        let ghost all = caption_views(self.captions@);
        let mut out: Vec<Caption> = Vec::new();
        let mut i: usize = 0;
        assert(all.take(0) == Seq::<CaptionView>::empty());
        assert(caption_views(out@) =~= merged(all.take(0)));
        while i < self.captions.len()
            invariant
                i <= self.captions@.len(),
                all == caption_views(self.captions@),
                self.offset == old(self).offset,
                caption_views(out@) == merged(all.take(i as int)),
            decreases self.captions@.len() - i,
        {
            let ghost init = caption_views(out@);
            let ghost c = all[i as int];
            assert(c == self.captions@[i as int]@);
            assert(all.take(i + 1).drop_last() == all.take(i as int));
            assert(all.take(i + 1).last() == c);
            let n = out.len();
            if n > 0 && (self.captions[i].timestamp as i128) - (out[n - 1].timestamp as i128)
                < 2000 {
                assert(init.last() == out@[n - 1]@);
                let last = out.pop().unwrap();
                let Caption { timestamp, text } = last;
                let mut text = text;
                text.push(' ');
                text.push(' ');
                text.append(self.captions[i].text.as_str());
                assert(text@ == init.last().text + seq![' ', ' '] + c.text);
                out.push(Caption { timestamp, text });
                assert(caption_views(out@) =~= init.drop_last().push(joined(init.last(), c)));
            } else {
                if n > 0 {
                    assert(init.last() == out@[n - 1]@);
                }
                out.push(self.captions[i].clone());
                assert(caption_views(out@) =~= init.push(c));
            }
            i += 1;
        }
        proof {
            assert(all.take(self.captions@.len() as int) == all);
            lemma_merged(all);
        }
        self.captions = out;
    }
}

/// Each caption of `s` is among the captions of its own time.
pub proof fn lemma_with_time_holds(s: Seq<CaptionView>, i: int)
    requires
        0 <= i < s.len(),
    ensures
        with_time(s, s[i].timestamp).contains(s[i]),
    decreases s.len(),
{
    let t = s[i].timestamp;
    let tail = s.skip(1);
    if i == 0 {
        assert(with_time(s, t)[0] == s[0]);
    } else {
        lemma_with_time_holds(tail, i - 1);
        assert(tail[i - 1] == s[i]);
        let k = choose|k: int| 0 <= k < with_time(tail, t).len() && with_time(tail, t)[k] == s[i];
        if s[0].timestamp == t {
            assert(with_time(s, t)[k + 1] == s[i]);
        }
    }
}

/// A caption among those of its time in `s` is a caption of `s`.
pub proof fn lemma_with_time_within(s: Seq<CaptionView>, c: CaptionView)
    requires
        with_time(s, c.timestamp).contains(c),
    ensures
        s.contains(c),
    decreases s.len(),
{
    let t = c.timestamp;
    if s.len() > 0 {
        let tail = s.skip(1);
        let w = with_time(s, t);
        let k = choose|k: int| 0 <= k < w.len() && w[k] == c;
        if s[0].timestamp == t && k == 0 {
            assert(s[0] == c);
        } else {
            if s[0].timestamp == t {
                assert(with_time(tail, t)[k - 1] == c);
            } else {
                assert(with_time(tail, t)[k] == c);
            }
            lemma_with_time_within(tail, c);
            let j = choose|j: int| 0 <= j < tail.len() && tail[j] == c;
            assert(s[j + 1] == c);
        }
    }
}

/// The lines of `s`: the stretches between its line feeds. A line feed at
/// the very end opens no further line.
pub open spec fn lines_of(s: Seq<char>) -> Seq<Seq<char>>
    decreases s.len(),
{
    if s.len() == 0 {
        Seq::empty()
    } else {
        let k = position(s, '\n');
        if 0 <= k < s.len() {
            seq![s.take(k)] + lines_of(s.skip(k + 1))
        } else {
            seq![s]
        }
    }
}

/// The time in milliseconds that `s` writes as minutes, a colon, seconds, a
/// dot and a fraction of a second. A fraction below 100 counts hundredths,
/// any other counts milliseconds.
pub open spec fn time_of(s: Seq<char>) -> Option<int> {
    let colon = position(s, ':');
    let dot = colon + position(s.skip(colon), '.');
    if 0 <= colon < s.len() && dot < s.len() {
        match (
            unsigned_of(s.subrange(0, colon), u32::MAX as int),
            unsigned_of(s.subrange(colon + 1, dot), u32::MAX as int),
            unsigned_of(s.subrange(dot + 1, s.len() as int), u32::MAX as int),
        ) {
            (Some(minutes), Some(seconds), Some(fraction)) => Some(
                (minutes * 60 + seconds) * 1000 + (if fraction < 100 {
                    fraction * 10
                } else {
                    fraction
                }),
            ),
            _ => None,
        }
    } else {
        None
    }
}

/// The caption that `line` writes: a time between the first `[` and the
/// next `]`, and everything behind that `]` as the text.
pub open spec fn caption_of(line: Seq<char>) -> Option<CaptionView> {
    let start = position(line, '[') + 1;
    if 0 < start <= line.len() {
        let close = start + position(line.skip(start), ']');
        if close < line.len() {
            match time_of(line.subrange(start, close)) {
                Some(t) => Some(CaptionView { timestamp: t, text: line.skip(close + 1) }),
                None => None,
            }
        } else {
            None
        }
    } else {
        None
    }
}

/// The characters with which a line that sets the offset begins.
pub open spec fn offset_tag() -> Seq<char> {
    seq!['[', 'o', 'f', 'f', 's', 'e', 't', ':']
}

/// The offset that `line` sets: the number between `[offset:` at its start
/// and the next `]`.
pub open spec fn line_offset(line: Seq<char>) -> Option<int> {
    if line.len() >= 8 && line.take(8) == offset_tag() {
        let rest = line.skip(8);
        let end = position(rest, ']');
        if end < rest.len() {
            signed_of(trimmed(rest.take(end)), i64::MIN as int, i64::MAX as int)
        } else {
            None
        }
    } else {
        None
    }
}

/// The caption that `line` adds to a lyric: that of a line which starts
/// with `[` and sets no offset.
pub open spec fn line_caption(line: Seq<char>) -> Option<CaptionView> {
    if line.len() > 0 && line[0] == '[' && line_offset(line) is None {
        caption_of(line)
    } else {
        None
    }
}

/// The captions that `lines` write, in the order of the lines. White space
/// at the ends of a line does not count.
pub open spec fn raw_captions(lines: Seq<Seq<char>>) -> Seq<CaptionView>
    decreases lines.len(),
{
    if lines.len() == 0 {
        Seq::empty()
    } else {
        match line_caption(trimmed(lines.last())) {
            Some(c) => raw_captions(lines.drop_last()).push(c),
            None => raw_captions(lines.drop_last()),
        }
    }
}

/// The offset that `lines` set: that of the last line which sets one, else
/// zero.
pub open spec fn last_offset(lines: Seq<Seq<char>>) -> int
    decreases lines.len(),
{
    if lines.len() == 0 {
        0
    } else {
        match line_offset(trimmed(lines.last())) {
            Some(offset) => offset,
            None => last_offset(lines.drop_last()),
        }
    }
}

/// The lyric that the text `s` writes: the offset its lines set, and their
/// captions in order of time, merged where they are close.
pub open spec fn parsed(s: Seq<char>) -> LyricView {
    LyricView {
        offset: last_offset(lines_of(s)),
        captions: merged(stable_sorted(raw_captions(lines_of(s)))),
    }
}

/// The time `millis` as LRC writes it: minutes, seconds and hundredths of
/// a second in two digits each. Whole hours are left out.
pub open spec fn time_tag(millis: nat) -> Seq<char> {
    padded2((millis / 1000 / 60) % 60) + seq![':'] + padded2((millis / 1000) % 60) + seq!['.']
        + padded2((millis % 1000) / 10)
}

/// The line that LRC writes for the caption `c`. A time below zero is
/// written as zero.
pub open spec fn caption_line(c: CaptionView) -> Seq<char> {
    let millis = if c.timestamp < 0 {
        0nat
    } else {
        c.timestamp as nat
    };
    seq!['['] + time_tag(millis) + seq![']'] + c.text + seq!['\n']
}

/// The lines that LRC writes for the captions `s`.
pub open spec fn caption_lines(s: Seq<CaptionView>) -> Seq<char>
    decreases s.len(),
{
    if s.len() == 0 {
        Seq::empty()
    } else {
        caption_lines(s.drop_last()) + caption_line(s.last())
    }
}

/// The line that sets the offset, where the offset is not zero.
pub open spec fn offset_line(offset: int) -> Seq<char> {
    if offset != 0 {
        offset_tag() + signed_decimal(offset) + seq![']', '\n']
    } else {
        Seq::empty()
    }
}

/// The LRC text of the lyric `l`.
pub open spec fn lrc_text(l: LyricView) -> Seq<char> {
    offset_line(l.offset) + caption_lines(l.captions)
}

/// The time `time_stamp`, in milliseconds, as LRC writes it.
pub fn time_lrc(time_stamp: u64) -> (r: String)
    ensures
        r@ == time_tag(time_stamp as nat),
{
    let secs: u64 = time_stamp / 1000;
    let mut r = String::new();
    push_padded2(&mut r, (secs / 60) % 60);
    r.push(':');
    push_padded2(&mut r, secs % 60);
    r.push('.');
    push_padded2(&mut r, (time_stamp % 1000) / 10);
    assert(r@ =~= time_tag(time_stamp as nat));
    r
}

/// Reads the time between the brackets of a caption.
pub fn parse_time_chars(s: &[char]) -> (r: Option<u64>)
    ensures
        r == match time_of(s@) {
            Some(t) => Some(t as u64),
            None => None,
        },
        time_of(s@) is Some ==> 0 <= time_of(s@)->0 <= i64::MAX,
{
    let colon = match find_char(s, 0, ':') {
        Some(i) => i,
        None => {
            assert(s@.skip(0) == s@);
            return None;
        },
    };
    assert(s@.skip(0) == s@);
    let dot = match find_char(s, colon, '.') {
        Some(i) => i,
        None => {
            return None;
        },
    };
    let first = vstd::slice::slice_subrange(s, 0, colon);
    let second = vstd::slice::slice_subrange(s, colon + 1, dot);
    let third = vstd::slice::slice_subrange(s, dot + 1, s.len());
    let minutes = parse_unsigned(first, 0xffff_ffffu64);
    let seconds = parse_unsigned(second, 0xffff_ffffu64);
    let fraction = parse_unsigned(third, 0xffff_ffffu64);
    match (minutes, seconds, fraction) {
        (Some(m), Some(sec), Some(f)) => {
            let millis: u64 = if f < 100 {
                f * 10
            } else {
                f
            };
            Some((m * 60 + sec) * 1000 + millis)
        },
        _ => None,
    }
}

/// Reads one line as a caption.
#[verifier::spinoff_prover]
pub fn parse_line_chars(line: &[char]) -> (r: Option<Caption>)
    ensures
        r is Some <==> caption_of(line@) is Some,
        r is Some ==> r->0@ == caption_of(line@)->0,
{
    assert(line@.skip(0) == line@);
    let open = match find_char(line, 0, '[') {
        Some(i) => i,
        None => {
            assert(position(line@, '[') == line@.len());
            assert(caption_of(line@) is None);
            return None;
        },
    };
    assert(position(line@, '[') == open);
    let start = open + 1;
    let close = match find_char(line, start, ']') {
        Some(i) => i,
        None => {
            assert(start + position(line@.skip(start as int), ']') == line@.len());
            assert(caption_of(line@) is None);
            return None;
        },
    };
    assert(close == start + position(line@.skip(start as int), ']'));
    let stamp = vstd::slice::slice_subrange(line, start, close);
    assert(stamp@ == line@.subrange(start as int, close as int));
    proof {
        lemma_caption_of_between(line@, open as int, close as int);
    }
    match parse_time_chars(stamp) {
        Some(t) => {
            let rest = vstd::slice::slice_subrange(line, close + 1, line.len());
            assert(rest@ == line@.skip(close + 1));
            let text = string_of(rest);
            let caption = Caption { timestamp: t as i64, text };
            assert(caption@ == caption_of(line@)->0);
            Some(caption)
        },
        None => None,
    }
}

/// A line whose first `[` stands at `open` and whose next `]` stands at
/// `close` writes the caption of the time between them and the text behind
/// them, where there is a time between them.
pub proof fn lemma_caption_of_between(line: Seq<char>, open: int, close: int)
    requires
        0 <= open < close < line.len(),
        position(line, '[') == open,
        open + 1 + position(line.skip(open + 1), ']') == close,
    ensures
        caption_of(line) == match time_of(line.subrange(open + 1, close)) {
            Some(t) => Some(CaptionView { timestamp: t, text: line.skip(close + 1) }),
            None => None,
        },
{
}

/// The characters of `offset_tag`.
fn offset_tag_chars() -> (r: Vec<char>)
    ensures
        r@ == offset_tag(),
{
    let r = vec!['[', 'o', 'f', 'f', 's', 'e', 't', ':'];
    assert(r@ =~= offset_tag());
    r
}

/// Tells whether `s` begins with `prefix`.
pub fn starts_with(s: &[char], prefix: &[char]) -> (r: bool)
    ensures
        r == (s@.len() >= prefix@.len() && s@.take(prefix@.len() as int) == prefix@),
{
    if s.len() < prefix.len() {
        return false;
    }
    let mut i: usize = 0;
    while i < prefix.len()
        invariant
            i <= prefix@.len() <= s@.len(),
            forall|j: int| 0 <= j < i ==> s@[j] == prefix@[j],
        decreases prefix@.len() - i,
    {
        if s[i] != prefix[i] {
            assert(s@.take(prefix@.len() as int)[i as int] != prefix@[i as int]);
            return false;
        }
        i += 1;
    }
    assert(s@.take(prefix@.len() as int) =~= prefix@);
    true
}

/// Reads one line, with no white space at its ends, as a line that sets the
/// offset.
pub fn parse_offset_chars(line: &[char]) -> (r: Option<i64>)
    ensures
        r == match line_offset(line@) {
            Some(n) => Some(n as i64),
            None => None,
        },
        line_offset(line@) is Some ==> i64::MIN <= line_offset(line@)->0 <= i64::MAX,
{
    let tag = offset_tag_chars();
    if !starts_with(line, tag.as_slice()) {
        return None;
    }
    let rest = vstd::slice::slice_subrange(line, 8, line.len());
    assert(rest@ == line@.skip(8));
    assert(rest@.skip(0) == rest@);
    match find_char(rest, 0, ']') {
        Some(end) => {
            let number = trim(vstd::slice::slice_subrange(rest, 0, end));
            assert(rest@.subrange(0, end as int) == rest@.take(end as int));
            parse_i64(number)
        },
        None => None,
    }
}

impl Caption {
    /// Reads `line` as a caption: a time in brackets and the text behind it.
    pub fn parse_line(line: &str) -> (r: Option<Self>)
        ensures
            r is Some <==> caption_of(line@) is Some,
            r is Some ==> r->0@ == caption_of(line@)->0,
    {
        let chars = chars_of(line);
        parse_line_chars(chars.as_slice())
    }

    /// Reads `string`, the part of a caption between its brackets, as a
    /// time in milliseconds.
    pub fn parse_time(string: &str) -> (r: Option<u64>)
        ensures
            r == match time_of(string@) {
                Some(t) => Some(t as u64),
                None => None,
            },
    {
        let chars = chars_of(string);
        parse_time_chars(chars.as_slice())
    }

    /// Appends the caption to `out` as one line of LRC.
    pub fn as_lrc(&self, out: &mut String)
        ensures
            final(out)@ == old(out)@ + caption_line(self@),
    {
        let millis: u64 = if self.timestamp < 0 {
            0
        } else {
            self.timestamp as u64
        };
        let tag = time_lrc(millis);
        out.push('[');
        out.append(tag.as_str());
        out.push(']');
        out.append(self.text.as_str());
        out.push('\n');
        assert(out@ =~= old(out)@ + caption_line(self@));
    }
}

impl Lyric {
    /// The lyric as LRC text: a line for the offset where it is not zero,
    /// then one line for each caption.
    pub fn as_lrc_text(&self) -> (r: String)
        ensures
            r@ == lrc_text(self@),
    {
        let mut result = String::new();
        if self.offset != 0 {
            let tag = offset_tag_chars();
            push_chars(&mut result, tag.as_slice());
            push_signed_decimal(&mut result, self.offset);
            result.push(']');
            result.push('\n');
        }
        assert(result@ =~= offset_line(self@.offset));
        let ghost all = self@.captions;
        let mut i: usize = 0;
        assert(all.take(0) =~= Seq::<CaptionView>::empty());
        assert(result@ =~= offset_line(self@.offset) + caption_lines(all.take(0)));
        while i < self.captions.len()
            invariant
                i <= self.captions@.len(),
                all == self@.captions,
                result@ == offset_line(self@.offset) + caption_lines(all.take(i as int)),
            decreases self.captions@.len() - i,
        {
            assert(all.take(i + 1).drop_last() == all.take(i as int));
            assert(all.take(i + 1).last() == self.captions@[i as int]@);
            self.captions[i].as_lrc(&mut result);
            i += 1;
            assert(result@ =~= offset_line(self@.offset) + caption_lines(all.take(i as int)));
        }
        assert(all.take(self.captions@.len() as int) == all);
        result
    }

    /// Reads LRC text. Lines that are neither a caption nor an offset are
    /// passed over, so every text gives a lyric. The captions come out in
    /// order of time and two seconds or more apart.
    pub fn from_str(s: &str) -> (r: Result<Self, ()>)
        ensures
            r is Ok,
            r->Ok_0@ == parsed(s@),
            ordered(r->Ok_0@.captions),
            spaced(r->Ok_0@.captions),
            forall|i: int|
                0 <= i < r->Ok_0@.captions.len() ==> (#[trigger] r->Ok_0@.captions[i]).timestamp
                    >= 0,
    {
        let chars = chars_of(s);
        let all = chars.as_slice();
        let mut offset: i64 = 0;
        let mut captions: Vec<Caption> = Vec::new();
        let ghost mut done: Seq<Seq<char>> = Seq::empty();
        let mut pos: usize = 0;
        assert(all@.skip(0) == all@);
        assert(caption_views(captions@) =~= raw_captions(done));
        while pos < all.len()
            invariant
                pos <= all@.len(),
                lines_of(all@) == done + lines_of(all@.skip(pos as int)),
                caption_views(captions@) == raw_captions(done),
                offset == last_offset(done),
                forall|i: int|
                    0 <= i < captions@.len() ==> (#[trigger] caption_views(
                        captions@,
                    )[i]).timestamp >= 0,
            decreases all@.len() - pos,
        {
            let ghost rest = all@.skip(pos as int);
            let end = match find_char(all, pos, '\n') {
                Some(i) => i,
                None => all.len(),
            };
            let next = if end < all.len() {
                end + 1
            } else {
                end
            };
            let raw = vstd::slice::slice_subrange(all, pos, end);
            proof {
                if end < all@.len() {
                    assert(raw@ == rest.take(end - pos));
                    assert(rest.skip(end - pos + 1) == all@.skip(next as int));
                } else {
                    assert(raw@ == rest);
                    assert(all@.skip(next as int).len() == 0);
                    assert(done + seq![rest] + lines_of(all@.skip(next as int)) == done + seq![
                        rest,
                    ]);
                }
                assert(lines_of(all@) == done.push(raw@) + lines_of(all@.skip(next as int)));
                assert(done.push(raw@).drop_last() == done);
                assert(done.push(raw@).last() == raw@);
            }
            let line = trim(raw);
            let ghost views = caption_views(captions@);
            match parse_offset_chars(line) {
                Some(o) => {
                    offset = o;
                },
                None => {
                    if line.len() > 0 && line[0] == '[' {
                        match parse_line_chars(line) {
                            Some(caption) => {
                                captions.push(caption);
                                assert(caption_views(captions@) =~= views.push(caption@));
                            },
                            None => {},
                        }
                    }
                },
            }
            proof {
                done = done.push(raw@);
            }
            pos = next;
        }
        proof {
            assert(all@.skip(all@.len() as int).len() == 0);
            assert(done + lines_of(all@.skip(pos as int)) == done);
            let raw = raw_captions(done);
            lemma_stable_sorted(raw);
            lemma_merged(stable_sorted(raw));
            lemma_sorted_keeps(raw);
        }
        let mut lyric = Lyric { offset, captions: sort_by_time(captions) };
        lyric.merge_adjacent();
        proof {
            let raw = raw_captions(done);
            let sorted = stable_sorted(raw);
            let out = lyric@.captions;
            assert forall|i: int| 0 <= i < out.len() implies (#[trigger] out[i]).timestamp >= 0 by {
                let j = choose|j: int| 0 <= j < sorted.len() && out[i].timestamp == sorted[j].timestamp;
                let k = choose|k: int| 0 <= k < raw.len() && sorted[j] == raw[k];
            }
        }
        Ok(lyric)
    }
}

/// Every caption of the sorted captions is one of the captions that were
/// sorted.
pub proof fn lemma_sorted_keeps(s: Seq<CaptionView>)
    ensures
        forall|i: int|
            0 <= i < stable_sorted(s).len() ==> exists|j: int|
                0 <= j < s.len() && #[trigger] stable_sorted(s)[i] == s[j],
{
    lemma_stable_sorted(s);
    let r = stable_sorted(s);
    assert forall|i: int| 0 <= i < r.len() implies exists|j: int|
        0 <= j < s.len() && #[trigger] r[i] == s[j] by {
        let c = r[i];
        lemma_with_time_holds(r, i);
        assert(with_time(r, c.timestamp) == with_time(s, c.timestamp));
        lemma_with_time_within(s, c);
    }
}

/// The lookup of `get_text` goes by the sum of the time and the offset: an
/// offset stands for as much time played.
pub proof fn lemma_offset_is_time(millis: int, offset: int, shift: int)
    ensures
        text_time(millis, offset + shift) == text_time(millis + shift, offset),
{
}

/// Two times between which no caption begins have the same captions before
/// them.
pub proof fn lemma_leading_same(s: Seq<CaptionView>, a: int, b: int)
    requires
        forall|i: int| 0 <= i < s.len() ==> ((#[trigger] s[i]).timestamp <= a <==> s[i].timestamp <= b),
    ensures
        leading_through(s, a) == leading_through(s, b),
    decreases s.len(),
{
    if s.len() > 0 {
        let tail = s.skip(1);
        assert(s[0].timestamp <= a <==> s[0].timestamp <= b);
        assert forall|i: int| 0 <= i < tail.len() implies ((#[trigger] tail[i]).timestamp <= a
            <==> tail[i].timestamp <= b) by {
            assert(tail[i] == s[i + 1]);
        }
        lemma_leading_same(tail, a, b);
    }
}

/// With an offset of two seconds, the caption shown at a time of two
/// seconds or more is the caption that is shown two seconds earlier without
/// offset, provided no caption begins in the four seconds after the time.
pub proof fn lemma_offset_of_two_seconds(captions: Seq<CaptionView>, millis: int)
    requires
        millis >= 2000,
        forall|i: int|
            0 <= i < captions.len() ==> !(millis < (#[trigger] captions[i]).timestamp <= millis
                + 4000),
    ensures
        current_index(captions, text_time(millis, 2000)) == current_index(
            captions,
            text_time(millis - 2000, 0),
        ),
{
    lemma_leading_same(captions, millis + 4000, millis);
}

/// Captions that are two seconds or more apart stay as they are when
/// merged.
pub proof fn lemma_merged_of_spaced(s: Seq<CaptionView>)
    requires
        spaced(s),
    ensures
        merged(s) == s,
    decreases s.len(),
{
    if s.len() > 0 {
        let front = s.drop_last();
        assert(spaced(front)) by {
            assert forall|i: int, j: int| 0 <= i && j == i + 1 && j < front.len() implies #[trigger] front[j].timestamp
                - #[trigger] front[i].timestamp >= 2000 by {
                assert(front[i] == s[i] && front[j] == s[j]);
            }
        }
        lemma_merged_of_spaced(front);
        if front.len() > 0 {
            assert(front.last() == s[s.len() - 2]);
            assert(s.last() == s[s.len() - 1]);
            assert(s[s.len() - 1].timestamp - s[s.len() - 2].timestamp >= 2000);
        }
        assert(front.push(s.last()) =~= s);
    }
}

/// Whether a lyric can be written as LRC and read back: its captions are
/// in order of time and two seconds or more apart, each at a whole
/// hundredth of a second within the first hour, and no text holds a line
/// feed or ends with white space.
pub open spec fn writable(l: LyricView) -> bool {
    &&& i64::MIN <= l.offset <= i64::MAX
    &&& ordered(l.captions)
    &&& spaced(l.captions)
    &&& forall|i: int| 0 <= i < l.captions.len() ==> writable_caption(#[trigger] l.captions[i])
}

/// Whether a caption can be written as one line of LRC and read back.
pub open spec fn writable_caption(c: CaptionView) -> bool {
    &&& 0 <= c.timestamp < 3_600_000
    &&& c.timestamp % 10 == 0
    &&& forall|k: int| 0 <= k < c.text.len() ==> c.text[k] != '\n'
    &&& c.text.len() > 0 ==> !is_space(c.text.last())
}

/// The line of the caption `c` without the line feed at its end.
pub open spec fn caption_body(c: CaptionView) -> Seq<char> {
    let millis = if c.timestamp < 0 {
        0nat
    } else {
        c.timestamp as nat
    };
    seq!['['] + time_tag(millis) + seq![']'] + c.text
}

/// The line that sets the offset, without the line feed at its end.
pub open spec fn offset_body(offset: int) -> Seq<char> {
    offset_tag() + signed_decimal(offset) + seq![']']
}

/// The lines of the captions `s`, each without the line feed at its end.
pub open spec fn caption_bodies(s: Seq<CaptionView>) -> Seq<Seq<char>> {
    Seq::new(s.len(), |i: int| caption_body(s[i]))
}

/// A text without a line feed, then a line feed, then more text: the first
/// line is the text, and the other lines are those of the rest.
pub proof fn lemma_lines_of_first(a: Seq<char>, rest: Seq<char>)
    requires
        forall|k: int| 0 <= k < a.len() ==> a[k] != '\n',
    ensures
        lines_of(a + seq!['\n'] + rest) == seq![a] + lines_of(rest),
{
    let s = a + seq!['\n'] + rest;
    lemma_position(s, '\n', a.len() as int);
    assert(s.take(a.len() as int) =~= a);
    assert(s.skip(a.len() as int + 1) =~= rest);
}

/// Lines that all end with a line feed, and more text behind them: the
/// lines of the whole are the lines of both.
pub proof fn lemma_lines_of_joined(x: Seq<char>, y: Seq<char>)
    requires
        x.len() > 0 ==> x.last() == '\n',
    ensures
        lines_of(x + y) == lines_of(x) + lines_of(y),
    decreases x.len(),
{
    if x.len() == 0 {
        assert(x + y =~= y);
        assert(lines_of(x) + lines_of(y) =~= lines_of(y));
    } else {
        crate::text::lemma_position_bounds(x, '\n');
        let k = position(x, '\n');
        assert(k < x.len()) by {
            if k >= x.len() {
                assert(x[x.len() - 1] != '\n');
            }
        }
        let a = x.take(k);
        let tail = x.skip(k + 1);
        assert(x =~= a + seq!['\n'] + tail);
        assert(x + y =~= a + seq!['\n'] + (tail + y));
        lemma_lines_of_first(a, tail);
        lemma_lines_of_first(a, tail + y);
        if tail.len() > 0 {
            assert(tail.last() == x.last());
        }
        lemma_lines_of_joined(tail, y);
        assert(seq![a] + (lines_of(tail) + lines_of(y)) =~= (seq![a] + lines_of(tail)) + lines_of(y));
    }
}

/// The time tag of a time within the first hour: eight characters, of
/// which the third is a colon, the sixth a dot and the others digits, and
/// which read as the time cut to hundredths of a second.
pub proof fn lemma_time_tag(millis: nat)
    requires
        millis < 3_600_000,
    ensures
        time_tag(millis).len() == 8,
        forall|k: int|
            0 <= k < 8 && k != 2 && k != 5 ==> is_digit(#[trigger] time_tag(millis)[k]),
        time_tag(millis)[2] == ':',
        time_tag(millis)[5] == '.',
        time_of(time_tag(millis)) == Some(millis - millis % 10),
{
    let m = (millis / 1000 / 60) % 60;
    let sec = (millis / 1000) % 60;
    let cs = (millis % 1000) / 10;
    lemma_padded2(m);
    lemma_padded2(sec);
    lemma_padded2(cs);
    let t = time_tag(millis);
    let pm = padded2(m);
    let ps = padded2(sec);
    let pc = padded2(cs);
    assert(t.len() == 8);
    assert(t[0] == pm[0] && t[1] == pm[1] && t[3] == ps[0] && t[4] == ps[1] && t[6] == pc[0] && t[7]
        == pc[1]);
    assert(is_digit(pm[0]) && is_digit(pm[1]) && is_digit(ps[0]) && is_digit(ps[1]) && is_digit(
        pc[0],
    ) && is_digit(pc[1]));
    lemma_position(t, ':', 2);
    let rest = t.skip(2);
    assert(rest[0] == ':' && rest[1] == ps[0] && rest[2] == ps[1] && rest[3] == '.');
    lemma_position(rest, '.', 3);
    assert(t.subrange(0, 2) =~= pm);
    assert(t.subrange(3, 5) =~= ps);
    assert(t.subrange(6, 8) =~= pc);
    assert(unsigned_of(pm, u32::MAX as int) == Some(m as int));
    assert(unsigned_of(ps, u32::MAX as int) == Some(sec as int));
    assert(unsigned_of(pc, u32::MAX as int) == Some(cs as int));
    assert((m * 60 + sec) * 1000 + cs * 10 == millis - millis % 10);
}

/// The line of a caption that can be written reads as that caption, sets
/// no offset, and has no white space at its ends.
pub proof fn lemma_caption_body(c: CaptionView)
    requires
        writable_caption(c),
    ensures
        trimmed(caption_body(c)) == caption_body(c),
        line_offset(caption_body(c)) is None,
        line_caption(caption_body(c)) == Some(c),
        forall|k: int| 0 <= k < caption_body(c).len() ==> caption_body(c)[k] != '\n',
{
    let millis = c.timestamp as nat;
    let tag = time_tag(millis);
    let b = caption_body(c);
    lemma_time_tag(millis);
    assert(b.len() == 10 + c.text.len());
    assert(b[0] == '[');
    assert(b[9] == ']');
    assert forall|k: int| 1 <= k < 9 implies b[k] == tag[k - 1] by {}
    assert forall|k: int| 10 <= k < b.len() implies b[k] == c.text[k - 10] by {}
    assert(is_digit(tag[0]));
    assert(b[1] == tag[0]);
    if c.text.len() > 0 {
        assert(b.last() == c.text.last());
    } else {
        assert(b.last() == ']');
    }
    lemma_trimmed_same(b);
    assert(line_offset(b) is None) by {
        if b.len() >= 8 {
            assert(b.take(8)[1] == b[1]);
            assert(offset_tag()[1] == 'o');
        }
    }
    lemma_position(b, '[', 0);
    let after = b.skip(1);
    assert forall|j: int| 0 <= j < 8 implies after[j] != ']' by {
        assert(after[j] == tag[j]);
        if j != 2 && j != 5 {
            assert(is_digit(tag[j]));
        }
    }
    assert(after[8] == ']');
    lemma_position(after, ']', 8);
    assert(b.subrange(1, 9) =~= tag);
    assert(b.skip(10) =~= c.text);
    assert forall|k: int| 0 <= k < b.len() implies b[k] != '\n' by {
        if 1 <= k < 9 {
            assert(b[k] == tag[k - 1]);
            if k - 1 != 2 && k - 1 != 5 {
                assert(is_digit(tag[k - 1]));
            }
        } else if k >= 10 {
            assert(b[k] == c.text[k - 10]);
        }
    }
}

/// The line that sets an offset reads as that offset, adds no caption, and
/// has no white space at its ends.
pub proof fn lemma_offset_body(offset: int)
    requires
        i64::MIN <= offset <= i64::MAX,
    ensures
        trimmed(offset_body(offset)) == offset_body(offset),
        line_offset(offset_body(offset)) == Some(offset),
        line_caption(offset_body(offset)) is None,
        forall|k: int| 0 <= k < offset_body(offset).len() ==> offset_body(offset)[k] != '\n',
{
    let b = offset_body(offset);
    let d = signed_decimal(offset);
    lemma_signed_decimal(offset, i64::MIN as int, i64::MAX as int);
    assert(b[0] == '[');
    assert(b.last() == ']');
    lemma_trimmed_same(b);
    assert(b.take(8) =~= offset_tag());
    let rest = b.skip(8);
    assert(rest =~= d + seq![']']);
    assert forall|j: int| 0 <= j < d.len() implies rest[j] != ']' by {
        assert(rest[j] == d[j]);
        assert(is_digit(d[j]) || d[j] == '-');
    }
    assert(rest[d.len() as int] == ']');
    lemma_position(rest, ']', d.len() as int);
    assert(rest.take(d.len() as int) =~= d);
    assert(is_digit(d[0]) || d[0] == '-');
    assert(d.last() == d[d.len() - 1]);
    lemma_trimmed_same(d);
    assert forall|k: int| 0 <= k < b.len() implies b[k] != '\n' by {
        if 8 <= k < 8 + d.len() {
            assert(b[k] == d[k - 8]);
            assert(is_digit(d[k - 8]) || d[k - 8] == '-');
        } else if k < 8 {
            assert(b[k] == offset_tag()[k]);
        }
    }
}

/// The lines written for captions that can be written are the captions'
/// lines, and end with a line feed where there are any.
pub proof fn lemma_lines_of_captions(s: Seq<CaptionView>)
    requires
        forall|i: int| 0 <= i < s.len() ==> writable_caption(#[trigger] s[i]),
    ensures
        lines_of(caption_lines(s)) == caption_bodies(s),
        caption_lines(s).len() > 0 ==> caption_lines(s).last() == '\n',
        s.len() == 0 ==> caption_lines(s).len() == 0,
    decreases s.len(),
{
    if s.len() > 0 {
        let front = s.drop_last();
        let c = s.last();
        assert forall|i: int| 0 <= i < front.len() implies writable_caption(#[trigger] front[i]) by {
            assert(front[i] == s[i]);
        }
        lemma_lines_of_captions(front);
        assert(writable_caption(s[s.len() - 1]));
        lemma_caption_body(c);
        let body = caption_body(c);
        assert(caption_line(c) =~= body + seq!['\n'] + Seq::<char>::empty());
        lemma_lines_of_first(body, Seq::<char>::empty());
        lemma_lines_of_joined(caption_lines(front), caption_line(c));
        assert(caption_bodies(front) + seq![body] =~= caption_bodies(s));
        assert(seq![body] + lines_of(Seq::<char>::empty()) =~= seq![body]);
    }
}

/// Lines of which the first may set an offset and the others are the lines
/// of captions that can be written give those captions, and the offset
/// that the first line sets.
pub proof fn lemma_read_bodies(first: Seq<Seq<char>>, offset: int, s: Seq<CaptionView>)
    requires
        i64::MIN <= offset <= i64::MAX,
        first == (if offset != 0 {
            seq![offset_body(offset)]
        } else {
            Seq::<Seq<char>>::empty()
        }),
        forall|i: int| 0 <= i < s.len() ==> writable_caption(#[trigger] s[i]),
    ensures
        raw_captions(first + caption_bodies(s)) == s,
        last_offset(first + caption_bodies(s)) == offset,
    decreases s.len(),
{
    let lines = first + caption_bodies(s);
    if s.len() == 0 {
        assert(lines =~= first);
        if offset != 0 {
            lemma_offset_body(offset);
            assert(first.drop_last() =~= Seq::<Seq<char>>::empty());
            assert(first.last() == offset_body(offset));
            assert(raw_captions(first.drop_last()) =~= Seq::<CaptionView>::empty());
            assert(raw_captions(first) =~= s);
        } else {
            assert(raw_captions(first) =~= s);
        }
    } else {
        let front = s.drop_last();
        let c = s.last();
        assert forall|i: int| 0 <= i < front.len() implies writable_caption(#[trigger] front[i]) by {
            assert(front[i] == s[i]);
        }
        lemma_read_bodies(first, offset, front);
        assert(writable_caption(s[s.len() - 1]));
        lemma_caption_body(c);
        assert(lines.drop_last() =~= first + caption_bodies(front));
        assert(lines.last() == caption_body(c));
        assert(front.push(c) =~= s);
    }
}

/// A lyric that can be written comes back when its LRC text is read.
pub proof fn lemma_round_trip(l: LyricView)
    requires
        writable(l),
    ensures
        parsed(lrc_text(l)) == l,
{
    let s = l.captions;
    let first = if l.offset != 0 {
        seq![offset_body(l.offset)]
    } else {
        Seq::<Seq<char>>::empty()
    };
    lemma_lines_of_captions(s);
    if l.offset != 0 {
        lemma_offset_body(l.offset);
        let body = offset_body(l.offset);
        assert(offset_line(l.offset) =~= body + seq!['\n'] + Seq::<char>::empty());
        lemma_lines_of_first(body, Seq::<char>::empty());
        assert(seq![body] + lines_of(Seq::<char>::empty()) =~= seq![body]);
        lemma_lines_of_joined(offset_line(l.offset), caption_lines(s));
    } else {
        assert(offset_line(l.offset) + caption_lines(s) =~= caption_lines(s));
        assert(first + caption_bodies(s) =~= caption_bodies(s));
    }
    assert(lines_of(lrc_text(l)) == first + caption_bodies(s));
    lemma_read_bodies(first, l.offset, s);
    lemma_stable_sorted_of_ordered(s);
    lemma_merged_of_spaced(s);
}

} // verus!
