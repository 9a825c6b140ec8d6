use vstd::prelude::*;

use crate::ident::{text_is, Height};

verus! {

/// One key/value attribute of a chain-native event.
#[derive(Clone, Debug, PartialEq, Eq)]
pub struct EventAttribute {
    pub key: String,
    pub value: String,
}

impl View for EventAttribute {
    type V = (Seq<char>, Seq<char>);

    open spec fn view(&self) -> (Seq<char>, Seq<char>) {
        (self.key@, self.value@)
    }
}

/// The views of a list of attributes.
pub open spec fn attrs_view(s: Seq<EventAttribute>) -> Seq<(Seq<char>, Seq<char>)> {
    Seq::new(s.len(), |i: int| s[i]@)
}

/// A chain-native event: a kind tag and an ordered attribute list.
#[derive(Clone, Debug, PartialEq, Eq)]
pub struct AbciEvent {
    pub kind: String,
    pub attributes: Vec<EventAttribute>,
}

impl View for AbciEvent {
    type V = (Seq<char>, Seq<(Seq<char>, Seq<char>)>);

    open spec fn view(&self) -> (Seq<char>, Seq<(Seq<char>, Seq<char>)>) {
        (self.kind@, attrs_view(self.attributes@))
    }
}

/// A normalized protocol event.
///
/// `Decoded` carries the kind and attributes of an event that the
/// structured decoder recognized; `ChainError` embeds the raw event of a
/// failed, structurally unrecognized effect so it is never lost.
#[derive(Clone, Debug, PartialEq, Eq)]
pub enum ProtocolEvent {
    Decoded { kind: String, attributes: Vec<EventAttribute> },
    ChainError { kind: String, attributes: Vec<EventAttribute> },
}

impl View for ProtocolEvent {
    /// `(is_error, kind, attributes)`.
    type V = (bool, Seq<char>, Seq<(Seq<char>, Seq<char>)>);

    open spec fn view(&self) -> (bool, Seq<char>, Seq<(Seq<char>, Seq<char>)>) {
        match *self {
            ProtocolEvent::Decoded { kind, attributes } => (
                false,
                kind@,
                attrs_view(attributes@),
            ),
            ProtocolEvent::ChainError { kind, attributes } => (
                true,
                kind@,
                attrs_view(attributes@),
            ),
        }
    }
}

/// A protocol event tagged with its originating block height.
///
/// Equality is structural — same kind, same attributes, same height —
/// and is what deduplication goes by.
#[derive(Clone, Debug, PartialEq, Eq)]
pub struct ProtocolEventWithHeight {
    pub event: ProtocolEvent,
    pub height: Height,
}

impl View for ProtocolEventWithHeight {
    type V = ((bool, Seq<char>, Seq<(Seq<char>, Seq<char>)>), Height);

    open spec fn view(&self) -> ((bool, Seq<char>, Seq<(Seq<char>, Seq<char>)>), Height) {
        (self.event@, self.height)
    }
}

/// The views of a list of events.
pub open spec fn events_view(s: Seq<ProtocolEventWithHeight>) -> Seq<
    ((bool, Seq<char>, Seq<(Seq<char>, Seq<char>)>), Height),
> {
    Seq::new(s.len(), |i: int| s[i]@)
}

/// Copies an attribute list, preserving its view.
fn clone_attrs(v: &Vec<EventAttribute>) -> (r: Vec<EventAttribute>)
    ensures
        attrs_view(r@) == attrs_view(v@),
{
    let mut r: Vec<EventAttribute> = Vec::new();
    let n = v.len();
    let mut i: usize = 0;
    while i < n
        invariant
            0 <= i <= n,
            n == v@.len(),
            r@.len() == i,
            forall|j: int| 0 <= j < i ==> r@[j]@ == #[trigger] v@[j]@,
        decreases n - i,
    {
        r.push(EventAttribute { key: v[i].key.clone(), value: v[i].value.clone() });
        i += 1;
    }
    proof {
        assert(attrs_view(r@) =~= attrs_view(v@));
    }
    r
}

/// Copies an event, preserving its view.
pub fn clone_event(ev: &ProtocolEventWithHeight) -> (r: ProtocolEventWithHeight)
    ensures
        r@ == ev@,
{
    let event = match &ev.event {
        ProtocolEvent::Decoded { kind, attributes } => ProtocolEvent::Decoded {
            kind: kind.clone(),
            attributes: clone_attrs(attributes),
        },
        ProtocolEvent::ChainError { kind, attributes } => ProtocolEvent::ChainError {
            kind: kind.clone(),
            attributes: clone_attrs(attributes),
        },
    };
    ProtocolEventWithHeight { event, height: ev.height }
}

/// Structural equality of two attribute lists.
fn attrs_eq(a: &Vec<EventAttribute>, b: &Vec<EventAttribute>) -> (r: bool)
    ensures
        r == (attrs_view(a@) == attrs_view(b@)),
{
    if a.len() != b.len() {
        assert(attrs_view(a@).len() != attrs_view(b@).len());
        return false;
    }
    let n = a.len();
    let mut i: usize = 0;
    while i < n
        invariant
            0 <= i <= n,
            n == a@.len(),
            n == b@.len(),
            forall|j: int| 0 <= j < i ==> a@[j]@ == #[trigger] b@[j]@,
        decreases n - i,
    {
        if !(a[i].key == b[i].key) || !(a[i].value == b[i].value) {
            assert(attrs_view(a@)[i as int] != attrs_view(b@)[i as int]);
            return false;
        }
        assert(a@[i as int]@ == b@[i as int]@);
        i += 1;
    }
    proof {
        assert(attrs_view(a@) =~= attrs_view(b@));
    }
    true
}

/// Structural equality of two protocol events with height.
pub fn event_eq(a: &ProtocolEventWithHeight, b: &ProtocolEventWithHeight) -> (r: bool)
    ensures
        r == (a@ == b@),
{
    if !(a.height == b.height) {
        return false;
    }
    match (&a.event, &b.event) {
        (
            ProtocolEvent::Decoded { kind: ka, attributes: aa },
            ProtocolEvent::Decoded { kind: kb, attributes: ab },
        ) => {
            if !(*ka == *kb) {
                return false;
            }
            attrs_eq(aa, ab)
        },
        (
            ProtocolEvent::ChainError { kind: ka, attributes: aa },
            ProtocolEvent::ChainError { kind: kb, attributes: ab },
        ) => {
            if !(*ka == *kb) {
                return false;
            }
            attrs_eq(aa, ab)
        },
        _ => {
            assert(a@.0.0 != b@.0.0);
            false
        },
    }
}

// ---------------------------------------------------------------------
// The event pipeline: classify and convert chain events into protocol
// events, with an explicit skip-set and a "probably successful but
// undecodable" fallback.
// ---------------------------------------------------------------------
/// The fixed skip-set: non-protocol bookkeeping events, the
/// receive-packet marker (redundant with another event), and generic
/// message events.
pub open spec fn in_skip_set(kind: Seq<char>) -> bool {
    kind == "app_module"@ || kind == "recv_packet"@ || kind == "message"@
}

/// True when the attribute list carries the `code = 0` success marker.
pub open spec fn has_success_code(attrs: Seq<(Seq<char>, Seq<char>)>) -> bool {
    exists|i: int| 0 <= i < attrs.len() && #[trigger] attrs[i] == ("code"@, "0"@)
}

/// What converting one chain event yields.
///
/// A decoded event is emitted at the containing block's height.  An
/// undecodable event is dropped when its kind is in the skip-set or when
/// it carries the success marker; otherwise it becomes exactly one
/// chain-error event, at the same height, embedding the raw event.
pub open spec fn spec_classify(
    ev: (Seq<char>, Seq<(Seq<char>, Seq<char>)>),
    decoded: bool,
    height: Height,
) -> Option<((bool, Seq<char>, Seq<(Seq<char>, Seq<char>)>), Height)> {
    if decoded {
        Some(((false, ev.0, ev.1), height))
    } else if in_skip_set(ev.0) {
        None
    } else if has_success_code(ev.1) {
        None
    } else {
        Some(((true, ev.0, ev.1), height))
    }
}

/// True when the event's kind is in the fixed skip-set.
pub fn kind_in_skip_set(event: &AbciEvent) -> (r: bool)
    ensures
        r == in_skip_set(event.kind@),
{
    text_is(&event.kind, "app_module") || text_is(&event.kind, "recv_packet") || text_is(
        &event.kind,
        "message",
    )
}

/// True when the event carries the `code = 0` success marker.
pub fn carries_success_code(event: &AbciEvent) -> (r: bool)
    ensures
        r == has_success_code(event@.1),
{
    let n = event.attributes.len();
    let mut i: usize = 0;
    while i < n
        invariant
            0 <= i <= n,
            n == event.attributes@.len(),
            forall|j: int| 0 <= j < i ==> event.attributes@[j]@ != ("code"@, "0"@),
        decreases n - i,
    {
        if text_is(&event.attributes[i].key, "code") && text_is(&event.attributes[i].value, "0") {
            assert(event@.1[i as int] == ("code"@, "0"@));
            return true;
        }
        assert(event.attributes@[i as int]@ != ("code"@, "0"@));
        i += 1;
    }
    proof {
        assert forall|j: int| 0 <= j < event@.1.len() implies event@.1[j] != ("code"@, "0"@) by {
            assert(event@.1[j] == event.attributes@[j]@);
        }
    }
    false
}

/// Converts one chain event, given whether the structured decoder
/// recognized it, into at most one protocol event at `height`.
pub fn classify_event(event: &AbciEvent, decoded: bool, height: Height) -> (r: Option<
    ProtocolEventWithHeight,
>)
    ensures
        (r is Some) == (spec_classify(event@, decoded, height) is Some),
        r is Some ==> Some(r->Some_0@) == spec_classify(event@, decoded, height),
{
    if decoded {
        Some(
            ProtocolEventWithHeight {
                event: ProtocolEvent::Decoded {
                    kind: event.kind.clone(),
                    attributes: clone_attrs(&event.attributes),
                },
                height,
            },
        )
    } else if kind_in_skip_set(event) {
        None
    } else if carries_success_code(event) {
        None
    } else {
        Some(
            ProtocolEventWithHeight {
                event: ProtocolEvent::ChainError {
                    kind: event.kind.clone(),
                    attributes: clone_attrs(&event.attributes),
                },
                height,
            },
        )
    }
}

/// What converting a whole block of events yields, in order.
pub open spec fn spec_convert_all(
    evs: Seq<((Seq<char>, Seq<(Seq<char>, Seq<char>)>), bool)>,
    height: Height,
) -> Seq<((bool, Seq<char>, Seq<(Seq<char>, Seq<char>)>), Height)>
    decreases evs.len(),
{
    if evs.len() == 0 {
        Seq::empty()
    } else {
        let prefix = spec_convert_all(evs.drop_last(), height);
        match spec_classify(evs.last().0, evs.last().1, height) {
            Some(ev) => prefix.push(ev),
            None => prefix,
        }
    }
}

/// The view of a list of (event, decoded) pairs.
pub open spec fn tagged_events_view(s: Seq<(AbciEvent, bool)>) -> Seq<
    ((Seq<char>, Seq<(Seq<char>, Seq<char>)>), bool),
> {
    Seq::new(s.len(), |i: int| (s[i].0@, s[i].1))
}

/// Converts a block's events, each tagged with whether the structured
/// decoder recognized it, into protocol events at the block's height.
pub fn convert_events(events: &Vec<(AbciEvent, bool)>, height: Height) -> (r: Vec<
    ProtocolEventWithHeight,
>)
    ensures
        events_view(r@) == spec_convert_all(tagged_events_view(events@), height),
{
    let mut r: Vec<ProtocolEventWithHeight> = Vec::new();
    let n = events.len();
    let mut i: usize = 0;
    while i < n
        invariant
            0 <= i <= n,
            n == events@.len(),
            events_view(r@) == spec_convert_all(
                tagged_events_view(events@.subrange(0, i as int)),
                height,
            ),
        decreases n - i,
    {
        proof {
            assert(tagged_events_view(events@.subrange(0, i + 1)).drop_last() =~= tagged_events_view(
                events@.subrange(0, i as int),
            ));
            assert(tagged_events_view(events@.subrange(0, i + 1)).last() == (
                events@[i as int].0@,
                events@[i as int].1,
            ));
        }
        match classify_event(&events[i].0, events[i].1, height) {
            Some(ev) => {
                r.push(ev);
                proof {
                    assert(events_view(r@) =~= spec_convert_all(
                        tagged_events_view(events@.subrange(0, i + 1)),
                        height,
                    ));
                }
            },
            None => {
                proof {
                    assert(events_view(r@) =~= spec_convert_all(
                        tagged_events_view(events@.subrange(0, i + 1)),
                        height,
                    ));
                }
            },
        }
        i += 1;
    }
    proof {
        assert(events@.subrange(0, n as int) =~= events@);
    }
    r
}

// ---------------------------------------------------------------------
// Deduplication, preserving first-seen order.
// ---------------------------------------------------------------------
/// The deduplication of a list: each element's first occurrence, in
/// first-seen order.
pub open spec fn spec_dedup<T>(s: Seq<T>) -> Seq<T>
    decreases s.len(),
{
    if s.len() == 0 {
        s
    } else {
        let prefix = spec_dedup(s.drop_last());
        if prefix.contains(s.last()) {
            prefix
        } else {
            prefix.push(s.last())
        }
    }
}

/// True when `r` already holds an event structurally equal to `ev`.
fn contains_event(r: &Vec<ProtocolEventWithHeight>, ev: &ProtocolEventWithHeight) -> (found: bool)
    ensures
        found == events_view(r@).contains(ev@),
{
    let n = r.len();
    let mut i: usize = 0;
    while i < n
        invariant
            0 <= i <= n,
            n == r@.len(),
            forall|j: int| 0 <= j < i ==> r@[j]@ != #[trigger] ev@,
        decreases n - i,
    {
        if event_eq(&r[i], ev) {
            assert(events_view(r@)[i as int] == ev@);
            return true;
        }
        i += 1;
    }
    proof {
        assert forall|j: int| 0 <= j < events_view(r@).len() implies events_view(r@)[j]
            != ev@ by {
            assert(events_view(r@)[j] == r@[j]@);
        }
    }
    false
}

/// Deduplicates a flattened event list by structural equality,
/// preserving first-seen order: two identical events leave exactly one.
pub fn dedup_events(events: &Vec<ProtocolEventWithHeight>) -> (r: Vec<ProtocolEventWithHeight>)
    ensures
        events_view(r@) == spec_dedup(events_view(events@)),
{
    let mut r: Vec<ProtocolEventWithHeight> = Vec::new();
    let n = events.len();
    let mut i: usize = 0;
    while i < n
        invariant
            0 <= i <= n,
            n == events@.len(),
            events_view(r@) == spec_dedup(events_view(events@.subrange(0, i as int))),
        decreases n - i,
    {
        proof {
            assert(events_view(events@.subrange(0, i + 1)).drop_last() =~= events_view(
                events@.subrange(0, i as int),
            ));
            assert(events_view(events@.subrange(0, i + 1)).last() == events@[i as int]@);
        }
        if !contains_event(&r, &events[i]) {
            r.push(clone_event(&events[i]));
            proof {
                assert(events_view(r@) =~= spec_dedup(
                    events_view(events@.subrange(0, i + 1)),
                ));
            }
        } else {
            proof {
                assert(events_view(r@) =~= spec_dedup(
                    events_view(events@.subrange(0, i + 1)),
                ));
            }
        }
        i += 1;
    }
    proof {
        assert(events@.subrange(0, n as int) =~= events@);
    }
    r
}

// ---------------------------------------------------------------------
// Pipeline laws.
// ---------------------------------------------------------------------
/// Law: an undecodable event whose kind is in the fixed skip-set yields
/// no output, regardless of its attributes.  (The structured decoder
/// never recognizes a skip-set kind, so such events always reach this
/// branch undecoded.)
pub proof fn lemma_skip_set_silent(
    ev: (Seq<char>, Seq<(Seq<char>, Seq<char>)>),
    height: Height,
)
    requires
        in_skip_set(ev.0),
    ensures
        spec_classify(ev, false, height) is None,
{
}

/// Law: an undecodable event carrying the `code = 0` success marker
/// yields no output.
pub proof fn lemma_success_marker_silent(
    ev: (Seq<char>, Seq<(Seq<char>, Seq<char>)>),
    height: Height,
)
    requires
        !in_skip_set(ev.0),
        has_success_code(ev.1),
    ensures
        spec_classify(ev, false, height) is None,
{
}

/// Law: an undecodable event outside the skip-set and without the
/// success marker yields exactly one chain-error event, at the block's
/// height, embedding the raw event.
pub proof fn lemma_undecodable_failure_reported(
    ev: (Seq<char>, Seq<(Seq<char>, Seq<char>)>),
    height: Height,
)
    requires
        !in_skip_set(ev.0),
        !has_success_code(ev.1),
    ensures
        spec_classify(ev, false, height) == Some(((true, ev.0, ev.1), height)),
{
}

/// True when `a` can be read off `s` left to right, skipping elements.
pub open spec fn is_subsequence<T>(a: Seq<T>, s: Seq<T>) -> bool
    decreases a.len() + s.len(),
{
    if a.len() == 0 {
        true
    } else if s.len() == 0 {
        false
    } else if a.last() == s.last() {
        is_subsequence(a.drop_last(), s.drop_last())
    } else {
        is_subsequence(a, s.drop_last())
    }
}

/// A subsequence of `t` is one of `t` extended by an element.
proof fn lemma_subsequence_push<T>(a: Seq<T>, t: Seq<T>, x: T)
    requires
        is_subsequence(a, t),
    ensures
        is_subsequence(a, t.push(x)),
    decreases a.len() + t.len(), 1int,
{
    let u = t.push(x);
    assert(u.last() == x);
    assert(u.drop_last() =~= t);
    if a.len() == 0 {
    } else if a.last() == x {
        lemma_subsequence_drop_last(a, t);
    } else {
    }
}

/// Dropping the tail element of a subsequence keeps it one.
proof fn lemma_subsequence_drop_last<T>(a: Seq<T>, t: Seq<T>)
    requires
        is_subsequence(a, t),
        a.len() >= 1,
    ensures
        is_subsequence(a.drop_last(), t),
    decreases a.len() + t.len(), 0int,
{
    if a.last() == t.last() {
        assert(is_subsequence(a.drop_last(), t.drop_last()));
        lemma_subsequence_push(a.drop_last(), t.drop_last(), t.last());
        assert(t.drop_last().push(t.last()) =~= t);
    } else {
        lemma_subsequence_drop_last(a, t.drop_last());
        lemma_subsequence_push(a.drop_last(), t.drop_last(), t.last());
        assert(t.drop_last().push(t.last()) =~= t);
    }
}

/// Law: deduplication preserves first-seen order — the result reads off
/// the input left to right, each kept element standing at its first
/// occurrence.
pub proof fn lemma_dedup_subsequence<T>(s: Seq<T>)
    ensures
        is_subsequence(spec_dedup(s), s),
    decreases s.len(),
{
    if s.len() > 0 {
        lemma_dedup_subsequence(s.drop_last());
        let p = spec_dedup(s.drop_last());
        if p.contains(s.last()) {
            lemma_subsequence_push(p, s.drop_last(), s.last());
            assert(s.drop_last().push(s.last()) =~= s);
        } else {
            let d = p.push(s.last());
            assert(d.last() == s.last());
            assert(d.drop_last() =~= p);
        }
    }
}

/// Law: deduplication leaves no two equal events — every element of the
/// result occurs in it exactly once — and keeps exactly the elements of
/// the input.
pub proof fn lemma_dedup_no_duplicates<T>(s: Seq<T>)
    ensures
        forall|i: int, j: int|
            0 <= i < j < spec_dedup(s).len() ==> spec_dedup(s)[i] != spec_dedup(s)[j],
        forall|x: T| spec_dedup(s).contains(x) <==> s.contains(x),
    decreases s.len(),
{
    if s.len() > 0 {
        lemma_dedup_no_duplicates(s.drop_last());
        let p = spec_dedup(s.drop_last());
        let d = spec_dedup(s);
        assert forall|x: T| d.contains(x) implies s.contains(x) by {
            if p.contains(x) {
                assert(s.drop_last().contains(x));
                let k = choose|k: int| 0 <= k < s.drop_last().len() && s.drop_last()[k] == x;
                assert(s[k] == x);
            } else {
                assert(x == s.last());
                assert(s[s.len() - 1] == x);
            }
        }
        assert forall|x: T| s.contains(x) implies d.contains(x) by {
            let k = choose|k: int| 0 <= k < s.len() && s[k] == x;
            if k < s.len() - 1 {
                assert(s.drop_last()[k] == x);
                assert(s.drop_last().contains(x));
                assert(p.contains(x));
                if !p.contains(s.last()) {
                    assert(d == p.push(s.last()));
                    let m = choose|m: int| 0 <= m < p.len() && p[m] == x;
                    assert(d[m] == x);
                }
            } else {
                assert(x == s.last());
                if p.contains(x) {
                    let m = choose|m: int| 0 <= m < p.len() && p[m] == x;
                    if !p.contains(s.last()) {
                        assert(d[m] == x);
                    }
                } else {
                    assert(d == p.push(s.last()));
                    assert(d[d.len() - 1] == x);
                }
            }
        }
        if !p.contains(s.last()) {
            assert forall|i: int, j: int| 0 <= i < j < d.len() implies d[i] != d[j] by {
                if j < d.len() - 1 {
                    assert(d[i] == p[i] && d[j] == p[j]);
                } else {
                    assert(d[j] == s.last());
                    assert(d[i] == p[i]);
                    assert(!p.contains(s.last()));
                    if p[i] == s.last() {
                        assert(p.contains(s.last()));
                    }
                }
            }
        }
    }
}

} // verus!
