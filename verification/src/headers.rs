use vstd::prelude::*;

use crate::strutil::{find_either, find_or, lemma_find_or, str_eq};

verus! {

/// The value stored under one header name: a single string, or the ordered
/// list of all values inserted under that name.
#[derive(Debug)]
pub enum Value {
    Single(String),
    Multiple(Vec<String>),
}

/// A case-insensitive multimap of header names to values. Names keep the
/// casing they were inserted with; lookup compares lowercased copies of
/// both names. Insertion order among the values of one name is preserved.
#[derive(Debug)]
pub struct Headers {
    data: Vec<(String, Value)>,
}

/// The model of one stored entry: the name and its ordered values.
pub type HeaderEntry = (Seq<char>, Seq<Seq<char>>);

/// The model of the whole container: entries in insertion order.
pub type HeadersView = Seq<HeaderEntry>;

/// A sequence of strings, seen as a sequence of character sequences.
pub open spec fn strs_view(vs: Seq<String>) -> Seq<Seq<char>> {
    Seq::new(vs.len(), |i: int| vs[i]@)
}

/// The ordered values held by a `Value`.
pub open spec fn value_view(v: Value) -> Seq<Seq<char>> {
    match v {
        Value::Single(s) => seq![s@],
        Value::Multiple(vs) => strs_view(vs@),
    }
}

impl View for Headers {
    type V = HeadersView;

    closed spec fn view(&self) -> HeadersView {
        Seq::new(self.data@.len(), |i: int| (self.data@[i].0@, value_view(self.data@[i].1)))
    }
}

/// Well-formedness of the model: names are pairwise distinct (as written),
/// and every entry holds at least one value.
pub open spec fn hview_wf(hs: HeadersView) -> bool {
    &&& forall|i: int, j: int| 0 <= i < j < hs.len() ==> hs[i].0 != hs[j].0
    &&& forall|i: int| 0 <= i < hs.len() ==> #[trigger] hs[i].1.len() >= 1
}

/// Whether some entry bears exactly this name.
pub open spec fn has_name(hs: HeadersView, name: Seq<char>) -> bool {
    exists|i: int| 0 <= i < hs.len() && #[trigger] hs[i].0 == name
}

/// The index of the entry bearing exactly this name.
pub open spec fn name_index(hs: HeadersView, name: Seq<char>) -> int {
    choose|i: int| 0 <= i < hs.len() && #[trigger] hs[i].0 == name
}

/// What one insertion does to the model: append to the values of the entry
/// with exactly this name, or append a fresh single-valued entry.
pub open spec fn spec_add(hs: HeadersView, name: Seq<char>, val: Seq<char>) -> HeadersView {
    if has_name(hs, name) {
        let i = name_index(hs, name);
        hs.update(i, (name, hs[i].1.push(val)))
    } else {
        hs.push((name, seq![val]))
    }
}

/// What `str::to_lowercase` returns for a string: a function of the
/// characters alone, named here so contracts can speak of it.
pub uninterp spec fn lower_of(s: Seq<char>) -> Seq<char>;

/// Relies on str::to_lowercase: the result depends on the characters alone.
#[verifier::external_body]
fn lowercase(s: &str) -> (r: String)
    ensures
        r@ == lower_of(s@),
{
    s.to_lowercase()
}

/// What a lookup returns: the values of the first entry whose lowercased
/// name equals the lowercased key.
pub open spec fn spec_lookup(hs: HeadersView, key: Seq<char>) -> Option<Seq<Seq<char>>>
    decreases hs.len(),
{
    if hs.len() == 0 {
        None
    } else if lower_of(hs[0].0) == lower_of(key) {
        Some(hs[0].1)
    } else {
        spec_lookup(hs.drop_first(), key)
    }
}

/// The shape a stored value may have: a `Multiple` holds at least two
/// values, so a one-value entry is always a `Single`.
pub open spec fn value_wf(v: Value) -> bool {
    match v {
        Value::Single(_) => true,
        Value::Multiple(vs) => vs@.len() >= 2,
    }
}

/// One terminated line with its line ending removed: a trailing carriage
/// return that stood before the line feed is dropped.
pub open spec fn strip_cr(line: Seq<char>) -> Seq<char> {
    if line.len() > 0 && line.last() == '\r' {
        line.drop_last()
    } else {
        line
    }
}

/// A header value as parsed from a line: at most one leading space removed.
pub open spec fn strip_one_space(v: Seq<char>) -> Seq<char> {
    if v.len() > 0 && v[0] == ' ' {
        v.drop_first()
    } else {
        v
    }
}

/// What one header line contributes: split at the first `:`, the name before
/// it, the value after it with at most one leading space removed. A line
/// without a `:` contributes nothing.
pub open spec fn spec_add_line(hs: HeadersView, line: Seq<char>) -> HeadersView {
    let i = find_or(line, ':', ':');
    if i < 0 {
        hs
    } else {
        spec_add(hs, line.take(i), strip_one_space(line.skip(i + 1)))
    }
}

/// Parsing a header block: lines end at a line feed (an immediately preceding
/// carriage return belongs to the terminator); the first empty line stops the
/// parse; a final unterminated line is taken whole.
pub open spec fn spec_header_block(s: Seq<char>, hs: HeadersView) -> HeadersView
    decreases s.len(),
    via spec_header_block_decreases
{
    if s.len() == 0 {
        hs
    } else {
        let i = find_or(s, '\n', '\n');
        if i < 0 {
            spec_add_line(hs, s)
        } else {
            let line = strip_cr(s.take(i));
            if line.len() == 0 {
                hs
            } else {
                spec_header_block(s.skip(i + 1), spec_add_line(hs, line))
            }
        }
    }
}

#[via_fn]
proof fn spec_header_block_decreases(s: Seq<char>, hs: HeadersView) {
    lemma_find_or(s, '\n', '\n');
}

/// One serialized header line.
pub open spec fn line_wire(name: Seq<char>, val: Seq<char>) -> Seq<char> {
    name + seq![':', ' '] + val + seq!['\r', '\n']
}

/// One entry serialized: one line per value, in stored order.
pub open spec fn entry_wire(name: Seq<char>, vals: Seq<Seq<char>>) -> Seq<char>
    decreases vals.len(),
{
    if vals.len() == 0 {
        Seq::empty()
    } else {
        line_wire(name, vals[0]) + entry_wire(name, vals.drop_first())
    }
}

/// The whole container serialized: entries in insertion order.
pub open spec fn wire_of(hs: HeadersView) -> Seq<char>
    decreases hs.len(),
{
    if hs.len() == 0 {
        Seq::empty()
    } else {
        entry_wire(hs[0].0, hs[0].1) + wire_of(hs.drop_first())
    }
}

/// Insertion preserves well-formedness.
pub proof fn lemma_spec_add_wf(hs: HeadersView, name: Seq<char>, val: Seq<char>)
    requires
        hview_wf(hs),
    ensures
        hview_wf(spec_add(hs, name, val)),
{
    if has_name(hs, name) {
        let i = name_index(hs, name);
        let r = spec_add(hs, name, val);
        assert(hs[i].0 == name);
        assert(forall|k: int| 0 <= k < r.len() ==> r[k].0 == hs[k].0);
    }
}

/// A name that serializes reversibly: no colon (the split point on
/// reparse) and no line feed.
pub open spec fn wire_safe_name(name: Seq<char>) -> bool {
    forall|k: int| 0 <= k < name.len() ==> #[trigger] name[k] != ':' && name[k] != '\n'
}

/// A value that serializes reversibly: no line feed.
pub open spec fn wire_safe_val(v: Seq<char>) -> bool {
    forall|k: int| 0 <= k < v.len() ==> #[trigger] v[k] != '\n'
}

/// An entry whose wire lines parse back to exactly the entry.
pub open spec fn wire_safe_entry(e: HeaderEntry) -> bool {
    wire_safe_name(e.0) && forall|j: int| 0 <= j < e.1.len() ==> wire_safe_val(#[trigger] e.1[j])
}

/// A container whose wire text parses back to exactly the container.
pub open spec fn wire_safe(hs: HeadersView) -> bool {
    forall|i: int| 0 <= i < hs.len() ==> wire_safe_entry(#[trigger] hs[i])
}

/// Merging a whole value sequence under one name, value by value.
pub open spec fn add_values(acc: HeadersView, name: Seq<char>, vals: Seq<Seq<char>>) -> HeadersView
    decreases vals.len(),
{
    if vals.len() == 0 {
        acc
    } else {
        add_values(spec_add(acc, name, vals[0]), name, vals.drop_first())
    }
}

/// Parsing one serialized line merges exactly the pair it was made from.
proof fn lemma_block_line(name: Seq<char>, val: Seq<char>, tail: Seq<char>, acc: HeadersView)
    requires
        wire_safe_name(name),
        wire_safe_val(val),
    ensures
        spec_header_block(line_wire(name, val) + tail, acc) == spec_header_block(
            tail,
            spec_add(acc, name, val),
        ),
{
    let line = line_wire(name, val);
    let s = line + tail;
    let nl = name.len() as int;
    let i = nl + val.len() + 3;
    assert(s[i] == '\n');
    assert forall|k: int| 0 <= k < i implies s[k] != '\n' by {
        if k < nl {
            assert(s[k] == name[k]);
        } else if k == nl {
            assert(s[k] == ':');
        } else if k == nl + 1 {
            assert(s[k] == ' ');
        } else if k < nl + 2 + val.len() {
            assert(s[k] == val[k - nl - 2]);
        } else {
            assert(s[k] == '\r');
        }
    }
    crate::strutil::lemma_find_or_is(s, '\n', '\n', i);
    let taken = s.take(i);
    assert(taken.len() > 0 && taken.last() == '\r');
    let line2 = strip_cr(taken);
    assert(line2 =~= name + seq![':', ' '] + val);
    assert(line2.len() != 0);
    assert(line2[nl] == ':');
    assert forall|k: int| 0 <= k < nl implies line2[k] != ':' by {
        assert(line2[k] == name[k]);
    }
    crate::strutil::lemma_find_or_is(line2, ':', ':', nl);
    assert(line2.take(nl) =~= name);
    assert(line2.skip(nl + 1) =~= seq![' '] + val);
    assert(strip_one_space(seq![' '] + val) =~= val);
    assert(spec_add_line(acc, line2) == spec_add(acc, name, val));
    assert(s.skip(i + 1) =~= tail);
    assert(spec_header_block(s, acc) == spec_header_block(tail, spec_add(acc, name, val)));
}

/// Parsing one entry's serialized lines merges exactly its values, in
/// order.
proof fn lemma_block_entry(
    name: Seq<char>,
    vals: Seq<Seq<char>>,
    tail: Seq<char>,
    acc: HeadersView,
)
    requires
        wire_safe_name(name),
        forall|j: int| 0 <= j < vals.len() ==> wire_safe_val(#[trigger] vals[j]),
    ensures
        spec_header_block(entry_wire(name, vals) + tail, acc) == spec_header_block(
            tail,
            add_values(acc, name, vals),
        ),
    decreases vals.len(),
{
    if vals.len() == 0 {
        assert(entry_wire(name, vals) + tail =~= tail);
    } else {
        let rest = vals.drop_first();
        let t2 = entry_wire(name, rest) + tail;
        assert(entry_wire(name, vals) + tail =~= line_wire(name, vals[0]) + t2);
        lemma_block_line(name, vals[0], t2, acc);
        assert forall|j: int| 0 <= j < rest.len() implies wire_safe_val(#[trigger] rest[j]) by {
            assert(rest[j] == vals[j + 1]);
        }
        lemma_block_entry(name, rest, tail, spec_add(acc, name, vals[0]));
    }
}

/// Merging a value sequence under a name already stored last appends the
/// values to that entry.
proof fn lemma_add_values_grow(
    acc: HeadersView,
    name: Seq<char>,
    pre: Seq<Seq<char>>,
    vals: Seq<Seq<char>>,
)
    requires
        forall|i: int| 0 <= i < acc.len() ==> #[trigger] acc[i].0 != name,
        pre.len() >= 1,
    ensures
        add_values(acc.push((name, pre)), name, vals) == acc.push((name, pre + vals)),
    decreases vals.len(),
{
    let h = acc.push((name, pre));
    if vals.len() == 0 {
        assert(pre + vals =~= pre);
        assert(acc.push((name, pre + vals)) =~= h);
    } else {
        let n = acc.len() as int;
        assert(h[n].0 == name);
        assert(has_name(h, name));
        let w = name_index(h, name);
        assert(0 <= w < h.len() && h[w].0 == name);
        if w < n {
            assert(h[w] == acc[w]);
            assert(false);
        }
        assert(w == n);
        assert(spec_add(h, name, vals[0]) =~= acc.push((name, pre.push(vals[0]))));
        lemma_add_values_grow(acc, name, pre.push(vals[0]), vals.drop_first());
        assert(pre.push(vals[0]) + vals.drop_first() =~= pre + vals);
        assert(add_values(h, name, vals) == acc.push((name, pre + vals)));
    }
}

/// Merging a value sequence under a fresh name appends one entry holding
/// exactly those values.
proof fn lemma_add_values_fresh(acc: HeadersView, name: Seq<char>, vals: Seq<Seq<char>>)
    requires
        forall|i: int| 0 <= i < acc.len() ==> #[trigger] acc[i].0 != name,
        vals.len() >= 1,
    ensures
        add_values(acc, name, vals) == acc.push((name, vals)),
{
    assert(!has_name(acc, name));
    assert(spec_add(acc, name, vals[0]) == acc.push((name, seq![vals[0]])));
    lemma_add_values_grow(acc, name, seq![vals[0]], vals.drop_first());
    assert(seq![vals[0]] + vals.drop_first() =~= vals);
}

/// Reparsing the wire text of a suffix, onto what was already rebuilt,
/// rebuilds the whole.
proof fn lemma_round_trip_rec(hs: HeadersView, acc: HeadersView)
    requires
        hview_wf(acc + hs),
        wire_safe(hs),
    ensures
        spec_header_block(wire_of(hs), acc) == acc + hs,
    decreases hs.len(),
{
    if hs.len() == 0 {
        assert(acc + hs =~= acc);
    } else {
        let name = hs[0].0;
        let vals = hs[0].1;
        let rest = hs.drop_first();
        let u = acc + hs;
        let n = acc.len() as int;
        assert(u[n] == hs[0]);
        assert(vals.len() >= 1);
        assert(wire_safe_entry(hs[0]));
        assert(wire_safe_name(name));
        assert forall|j: int| 0 <= j < vals.len() implies wire_safe_val(#[trigger] vals[j]) by {
            assert(wire_safe_entry(hs[0]));
        }
        lemma_block_entry(name, vals, wire_of(rest), acc);
        assert(wire_of(hs) == entry_wire(name, vals) + wire_of(rest));
        assert forall|i: int| 0 <= i < acc.len() implies #[trigger] acc[i].0 != name by {
            assert(u[i] == acc[i]);
        }
        lemma_add_values_fresh(acc, name, vals);
        let acc2 = acc.push(hs[0]);
        assert(acc2 + rest =~= u);
        assert(wire_safe(rest)) by {
            assert forall|i: int| 0 <= i < rest.len() implies wire_safe_entry(
                #[trigger] rest[i],
            ) by {
                assert(rest[i] == hs[i + 1]);
            }
        }
        lemma_round_trip_rec(rest, acc2);
        assert(spec_header_block(wire_of(rest), acc2) == acc2 + rest);
        assert(add_values(acc, name, vals) == acc2);
        assert(spec_header_block(wire_of(hs), acc) == acc + hs);
    }
}

/// Round trip: a well-formed container whose names hold no `:` or line
/// feed and whose values hold no line feed reparses from its own wire text
/// to exactly the same entries, names, values and order included.
pub proof fn lemma_wire_round_trip(hs: HeadersView)
    requires
        hview_wf(hs),
        wire_safe(hs),
    ensures
        spec_header_block(wire_of(hs), Seq::<HeaderEntry>::empty()) == hs,
{
    assert(Seq::<HeaderEntry>::empty() + hs =~= hs);
    lemma_round_trip_rec(hs, Seq::<HeaderEntry>::empty());
}

/// Reading does not mutate: a lookup is a pure function of the container
/// state and the key, so any two results that `get`'s contract admits for
/// the same state and key are equal.
pub proof fn lemma_get_idempotent(
    hs: HeadersView,
    key: Seq<char>,
    r1: Option<Seq<Seq<char>>>,
    r2: Option<Seq<Seq<char>>>,
)
    requires
        r1 == spec_lookup(hs, key),
        r2 == spec_lookup(hs, key),
    ensures
        r1 == r2,
{
}

/// A lookup succeeds exactly when some entry's lowercased name matches.
pub proof fn lemma_lookup_matches(hs: HeadersView, key: Seq<char>)
    ensures
        (spec_lookup(hs, key) is Some) <==> exists|i: int|
            0 <= i < hs.len() && lower_of(#[trigger] hs[i].0) == lower_of(key),
    decreases hs.len(),
{
    if hs.len() > 0 {
        if lower_of(hs[0].0) == lower_of(key) {
        } else {
            let t = hs.drop_first();
            lemma_lookup_matches(t, key);
            if spec_lookup(hs, key) is Some {
                let w = choose|i: int|
                    0 <= i < t.len() && lower_of(#[trigger] t[i].0) == lower_of(key);
                assert(hs[w + 1].0 == t[w].0);
            }
            if exists|i: int| 0 <= i < hs.len() && lower_of(#[trigger] hs[i].0) == lower_of(key) {
                let w = choose|i: int|
                    0 <= i < hs.len() && lower_of(#[trigger] hs[i].0) == lower_of(key);
                assert(t[w - 1].0 == hs[w].0);
            }
        }
    }
}

/// Lookup is case-insensitive: after inserting a value under `name`, a
/// lookup under any key with the same lowercased form finds a value.
pub proof fn lemma_get_case_insensitive(
    hs: HeadersView,
    name: Seq<char>,
    val: Seq<char>,
    key: Seq<char>,
)
    requires
        lower_of(key) == lower_of(name),
    ensures
        spec_lookup(spec_add(hs, name, val), key) is Some,
{
    let r = spec_add(hs, name, val);
    if has_name(hs, name) {
        let i = name_index(hs, name);
        assert(0 <= i < hs.len() && hs[i].0 == name);
        assert(r[i].0 == name);
        assert(lower_of(r[i].0) == lower_of(key));
    } else {
        assert(r[hs.len() as int].0 == name);
        assert(lower_of(r[hs.len() as int].0) == lower_of(key));
    }
    lemma_lookup_matches(r, key);
}

/// The first lowercased match determines the lookup result.
pub proof fn lemma_lookup_first(hs: HeadersView, key: Seq<char>, i: int)
    requires
        0 <= i < hs.len(),
        lower_of(hs[i].0) == lower_of(key),
        forall|k: int| 0 <= k < i ==> lower_of(#[trigger] hs[k].0) != lower_of(key),
    ensures
        spec_lookup(hs, key) == Some(hs[i].1),
    decreases hs.len(),
{
    if i > 0 {
        lemma_lookup_first(hs.drop_first(), key, i - 1);
        assert forall|k: int| 0 <= k < i - 1 implies lower_of(
            #[trigger] hs.drop_first()[k].0,
        ) != lower_of(key) by {
            assert(hs.drop_first()[k].0 == hs[k + 1].0);
        }
    }
}

/// Two insertions under one name, fresh to the container even after
/// lowercasing, yield a single entry holding both values in insertion
/// order.
pub proof fn lemma_add_two_values(hs: HeadersView, name: Seq<char>, v1: Seq<char>, v2: Seq<char>)
    requires
        hview_wf(hs),
        forall|i: int| 0 <= i < hs.len() ==> lower_of(#[trigger] hs[i].0) != lower_of(name),
    ensures
        spec_lookup(spec_add(spec_add(hs, name, v1), name, v2), name) == Some(seq![v1, v2]),
{
    assert forall|i: int| 0 <= i < hs.len() implies #[trigger] hs[i].0 != name by {
        if hs[i].0 == name {
            assert(lower_of(hs[i].0) == lower_of(name));
        }
    }
    assert(!has_name(hs, name));
    let h1 = spec_add(hs, name, v1);
    assert(h1 == hs.push((name, seq![v1])));
    let n = hs.len() as int;
    assert(h1[n].0 == name);
    assert(has_name(h1, name));
    lemma_spec_add_wf(hs, name, v1);
    let w = name_index(h1, name);
    assert(0 <= w < h1.len() && h1[w].0 == name);
    if w < n {
        assert(h1[w] == hs[w]);
        assert(lower_of(hs[w].0) != lower_of(name));
        assert(false);
    }
    assert(w == n);
    let h2 = spec_add(h1, name, v2);
    assert(h2 == h1.update(n, (name, seq![v1].push(v2))));
    assert(h2[n].1 =~= seq![v1, v2]);
    assert forall|k: int| 0 <= k < n implies lower_of(#[trigger] h2[k].0) != lower_of(name) by {
        assert(h2[k].0 == hs[k].0);
    }
    lemma_lookup_first(h2, name, n);
}

impl Headers {
    /// Every stored value has a well-formed shape: `value_wf` of it.
    pub closed spec fn variants_ok(&self) -> bool {
        forall|i: int| 0 <= i < self.data@.len() ==> value_wf(#[trigger] self.data@[i].1)
    }

    /// The container is well formed: the model is, and every stored value
    /// has a well-formed shape.
    pub open spec fn wf(&self) -> bool {
        hview_wf(self@) && self.variants_ok()
    }

    /// Returns an empty header container.
    pub fn new() -> (h: Headers)
        ensures
            h@ =~= Seq::<HeaderEntry>::empty(),
            h.wf(),
    {
        Headers { data: Vec::new() }
    }

    /// Inserts `val` under `key`: appends to the entry whose name is exactly
    /// `key`, or adds a new single-valued entry at the end.
    pub fn add(&mut self, key: &str, val: &str)
        requires
            old(self).wf(),
        ensures
            final(self).wf(),
            final(self)@ == spec_add(old(self)@, key@, val@),
    {
        let ghost hs = self@;
        let n = self.data.len();
        let mut i: usize = 0;
        while i < n
            invariant
                self@ == hs,
                old(self)@ == hs,
                self.data@ == old(self).data@,
                old(self).wf(),
                hview_wf(hs),
                n == self.data@.len(),
                0 <= i <= n,
                forall|k: int| 0 <= k < i ==> hs[k].0 != key@,
            decreases n - i,
        {
            if str_eq(self.data[i].0.as_str(), key) {
                proof {
                    assert(hs[i as int].0 == key@);
                    assert(has_name(hs, key@));
                    let w = name_index(hs, key@);
                    assert(0 <= w < hs.len() && hs[w].0 == key@);
                    if w != i as int {
                        assert(hs[w].0 == hs[i as int].0);
                        assert(false);
                    }
                    assert(name_index(hs, key@) == i as int);
                }
                let ghost data0 = self.data@;
                let (name, old_val) = self.data.remove(i);
                proof {
                    assert(old_val == data0[i as int].1);
                    assert(value_wf(old_val));
                }
                let new_val = match old_val {
                    Value::Single(prev) => {
                        let mut vs: Vec<String> = Vec::new();
                        vs.push(prev);
                        vs.push(String::from_str(val));
                        Value::Multiple(vs)
                    },
                    Value::Multiple(mut vs) => {
                        vs.push(String::from_str(val));
                        Value::Multiple(vs)
                    },
                };
                self.data.insert(i, (name, new_val));
                proof {
                    assert(value_wf(new_val));
                    assert(value_view(self.data@[i as int].1) =~= hs[i as int].1.push(val@));
                    assert(self@ =~= hs.update(i as int, (key@, hs[i as int].1.push(val@))));
                    assert(self@ == spec_add(hs, key@, val@));
                    lemma_spec_add_wf(hs, key@, val@);
                    assert forall|k: int| 0 <= k < self.data@.len() implies value_wf(
                        #[trigger] self.data@[k].1,
                    ) by {
                        if k != i as int {
                            assert(self.data@[k] == data0[k]);
                        }
                    }
                }
                return ;
            }
            i = i + 1;
        }
        let ghost data0 = self.data@;
        self.data.push((String::from_str(key), Value::Single(String::from_str(val))));
        proof {
            assert(!has_name(hs, key@));
            assert(self@ =~= hs.push((key@, seq![val@])));
            lemma_spec_add_wf(hs, key@, val@);
            assert forall|k: int| 0 <= k < self.data@.len() implies value_wf(
                #[trigger] self.data@[k].1,
            ) by {
                if k < data0.len() {
                    assert(self.data@[k] == data0[k]);
                }
            }
        }
    }

    /// Looks `key` up case-insensitively, comparing lowercased copies of
    /// the stored names against a lowercased copy of `key`, and returns the
    /// stored value of the first entry that matches, if any. A one-value
    /// entry comes back as `Single`, a multi-value entry as `Multiple`.
    pub fn get(&self, key: &str) -> (r: Option<&Value>)
        requires
            self.wf(),
        ensures
            match r {
                Some(v) => spec_lookup(self@, key@) == Some(value_view(*v)) && ((*v matches
                Value::Single(_)) <==> value_view(*v).len() == 1),
                None => spec_lookup(self@, key@) is None,
            },
    {
        let key_low = lowercase(key);
        let n = self.data.len();
        let mut i: usize = 0;
        proof {
            assert(self@.skip(0) =~= self@);
        }
        while i < n
            invariant
                self.wf(),
                key_low@ == lower_of(key@),
                n == self.data@.len(),
                0 <= i <= n,
                spec_lookup(self@, key@) == spec_lookup(self@.skip(i as int), key@),
            decreases n - i,
        {
            proof {
                assert(self@.skip(i as int)[0] == self@[i as int]);
                assert(self@.skip(i as int).drop_first() =~= self@.skip(i as int + 1));
            }
            let name_low = lowercase(self.data[i].0.as_str());
            if str_eq(name_low.as_str(), key_low.as_str()) {
                proof {
                    assert(value_wf(self.data@[i as int].1));
                    match self.data@[i as int].1 {
                        Value::Single(_) => {},
                        Value::Multiple(vs) => {
                            assert(value_view(self.data@[i as int].1).len() == vs@.len());
                        },
                    }
                }
                return Some(&self.data[i].1);
            }
            i = i + 1;
        }
        proof {
            assert(self@.skip(n as int).len() == 0);
        }
        None
    }

    /// Merges one header line into the container, as `spec_add_line` says.
    fn add_line(&mut self, line: &str)
        requires
            old(self).wf(),
        ensures
            final(self).wf(),
            final(self)@ == spec_add_line(old(self)@, line@),
    {
        match find_either(line, ':', ':') {
            None => {},
            Some(i) => {
                proof {
                    lemma_find_or(line@, ':', ':');
                }
                let n = line.unicode_len();
                let name = line.substring_char(0, i);
                let mut valpart = line.substring_char(i + 1, n);
                proof {
                    assert(name@ =~= line@.take(i as int));
                    assert(valpart@ =~= line@.skip(i as int + 1));
                }
                if valpart.unicode_len() > 0 && valpart.get_char(0) == ' ' {
                    let vn = valpart.unicode_len();
                    let stripped = valpart.substring_char(1, vn);
                    proof {
                        assert(stripped@ =~= valpart@.drop_first());
                    }
                    valpart = stripped;
                }
                proof {
                    assert(valpart@ == strip_one_space(line@.skip(i as int + 1)));
                }
                self.add(name, valpart);
            },
        }
    }

    /// Parses a block of `Name: value` lines, merging each pair as `add`
    /// does. The first empty line ends the block; a line without a `:` is
    /// skipped silently.
    pub fn from(raw: &str) -> (h: Headers)
        ensures
            h.wf(),
            h@ == spec_header_block(raw@, Seq::<HeaderEntry>::empty()),
    {
        let mut h = Headers::new();
        let mut rest: &str = raw;
        proof {
            assert(h@ =~= Seq::<HeaderEntry>::empty());
        }
        loop
            invariant_except_break
                h.wf(),
                spec_header_block(rest@, h@) == spec_header_block(
                    raw@,
                    Seq::<HeaderEntry>::empty(),
                ),
            ensures
                h.wf(),
                h@ == spec_header_block(raw@, Seq::<HeaderEntry>::empty()),
            decreases rest@.len(),
        {
            let n = rest.unicode_len();
            if n == 0 {
                break ;
            }
            match find_either(rest, '\n', '\n') {
                None => {
                    let ghost pre = h@;
                    h.add_line(rest);
                    proof {
                        assert(spec_header_block(rest@, pre) == spec_add_line(pre, rest@));
                    }
                    break ;
                },
                Some(i) => {
                    proof {
                        lemma_find_or(rest@, '\n', '\n');
                    }
                    let ghost rest0 = rest@;
                    let mut line = rest.substring_char(0, i);
                    proof {
                        assert(line@ =~= rest@.take(i as int));
                    }
                    if i > 0 && line.get_char(i - 1) == '\r' {
                        let shorter = rest.substring_char(0, i - 1);
                        proof {
                            assert(shorter@ =~= rest@.take(i as int).drop_last());
                        }
                        line = shorter;
                    }
                    proof {
                        assert(line@ == strip_cr(rest@.take(i as int)));
                    }
                    if line.unicode_len() == 0 {
                        break ;
                    }
                    let ghost pre = h@;
                    h.add_line(line);
                    rest = rest.substring_char(i + 1, n);
                    proof {
                        assert(rest@ =~= rest0.skip(i as int + 1));
                    }
                },
            }
        }
        h
    }

    /// Serializes the container: one `Name: value` line per stored value,
    /// values of one name in insertion order, entries in insertion order.
    pub fn to_wire_text(&self) -> (r: String)
        ensures
            r@ == wire_of(self@),
    {
        let mut out = String::new();
        let n = self.data.len();
        let mut i: usize = 0;
        proof {
            assert(self@.skip(0) =~= self@);
            assert(out@ + wire_of(self@.skip(0)) =~= wire_of(self@));
        }
        while i < n
            invariant
                n == self.data@.len(),
                0 <= i <= n,
                out@ + wire_of(self@.skip(i as int)) == wire_of(self@),
            decreases n - i,
        {
            let ghost gname = self@[i as int].0;
            let ghost gvals = self@[i as int].1;
            let ghost out_start = out@;
            proof {
                assert(self@.skip(i as int)[0] == self@[i as int]);
                assert(self@.skip(i as int).drop_first() =~= self@.skip(i as int + 1));
                assert(wire_of(self@.skip(i as int)) == entry_wire(gname, gvals) + wire_of(
                    self@.skip(i as int + 1),
                ));
            }
            match &self.data[i].1 {
                Value::Single(v) => {
                    append_line(&mut out, self.data[i].0.as_str(), v.as_str());
                    proof {
                        assert(gvals =~= seq![v@]);
                        assert(gvals.drop_first() =~= Seq::<Seq<char>>::empty());
                        assert(entry_wire(gname, gvals.drop_first()) =~= Seq::<char>::empty());
                        assert(entry_wire(gname, gvals) =~= line_wire(gname, gvals[0]) + entry_wire(
                            gname,
                            gvals.drop_first(),
                        ));
                        assert(entry_wire(gname, gvals) =~= line_wire(gname, v@));
                        assert(out@ =~= out_start + entry_wire(gname, gvals));
                    }
                },
                Value::Multiple(vs) => {
                    let m = vs.len();
                    let mut j: usize = 0;
                    proof {
                        assert(gvals =~= strs_view(vs@));
                        assert(gvals.skip(0) =~= gvals);
                        assert(out@ + entry_wire(gname, gvals.skip(0)) =~= out_start + entry_wire(
                            gname,
                            gvals,
                        ));
                    }
                    while j < m
                        invariant
                            m == vs@.len(),
                            0 <= j <= m,
                            gvals == strs_view(vs@),
                            gname == self@[i as int].0,
                            i < self.data@.len(),
                            self.data@[i as int].1 == Value::Multiple(*vs),
                            out@ + entry_wire(gname, gvals.skip(j as int)) == out_start
                                + entry_wire(gname, gvals),
                        decreases m - j,
                    {
                        let ghost out_before = out@;
                        append_line(&mut out, self.data[i].0.as_str(), vs[j].as_str());
                        proof {
                            assert(gvals.skip(j as int)[0] == gvals[j as int]);
                            assert(gvals[j as int] == vs@[j as int]@);
                            assert(gvals.skip(j as int).drop_first() =~= gvals.skip(j as int + 1));
                            assert(entry_wire(gname, gvals.skip(j as int)) == line_wire(
                                gname,
                                gvals[j as int],
                            ) + entry_wire(gname, gvals.skip(j as int + 1)));
                            assert(out@ + entry_wire(gname, gvals.skip(j as int + 1))
                                =~= out_before + entry_wire(gname, gvals.skip(j as int)));
                        }
                        j = j + 1;
                    }
                    proof {
                        assert(gvals.skip(m as int) =~= Seq::<Seq<char>>::empty());
                        assert(entry_wire(gname, gvals.skip(m as int)) =~= Seq::<char>::empty());
                        assert(out@ =~= out@ + entry_wire(gname, gvals.skip(m as int)));
                        assert(out@ =~= out_start + entry_wire(gname, gvals));
                    }
                },
            }
            proof {
                assert(out@ + wire_of(self@.skip(i as int + 1)) =~= (out_start + entry_wire(
                    gname,
                    gvals,
                )) + wire_of(self@.skip(i as int + 1)));
                assert((out_start + entry_wire(gname, gvals)) + wire_of(self@.skip(i as int + 1))
                    =~= out_start + (entry_wire(gname, gvals) + wire_of(self@.skip(i as int + 1))));
                assert(out@ + wire_of(self@.skip(i as int + 1)) =~= out_start + wire_of(
                    self@.skip(i as int),
                ));
            }
            i = i + 1;
        }
        proof {
            assert(wire_of(self@.skip(n as int)) =~= Seq::<char>::empty());
            assert(out@ =~= out@ + wire_of(self@.skip(n as int)));
        }
        out
    }
}

/// Appends one `Name: value` line, with its CRLF terminator, to `out`.
fn append_line(out: &mut String, name: &str, val: &str)
    ensures
        final(out)@ == old(out)@ + line_wire(name@, val@),
{
    out.append(name);
    out.append(": ");
    out.append(val);
    out.append("\r\n");
    proof {
        reveal_strlit(": ");
        reveal_strlit("\r\n");
        assert(": "@ =~= seq![':', ' ']);
        assert("\r\n"@ =~= seq!['\r', '\n']);
        assert(out@ =~= old(out)@ + line_wire(name@, val@));
    }
}

} // verus!
