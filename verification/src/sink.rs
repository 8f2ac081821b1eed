use vstd::prelude::*;
use vstd::string::StringExecFns;

verus! {

/// The view of a [`Label`]: a key/value pair of character sequences.
#[verifier::ext_equal]
pub ghost struct LabelV {
    /// The label key.
    pub key: Seq<char>,
    /// The label value.
    pub value: Seq<char>,
}

/// The view of a [`Key`]: a series name together with its ordered labels.
#[verifier::ext_equal]
pub ghost struct KeyV {
    /// The series name.
    pub name: Seq<char>,
    /// The ordered label set.
    pub labels: Seq<LabelV>,
}

/// A metric label: one key/value pair attached to a series.
#[derive(Clone, Debug)]
pub struct Label {
    key: String,
    value: String,
}

impl View for Label {
    type V = LabelV;

    closed spec fn view(&self) -> LabelV {
        LabelV { key: self.key@, value: self.value@ }
    }
}

impl Label {
    /// Create a label from a key and a value.
    pub fn new(key: &str, value: String) -> (r: Label)
        ensures
            r@ == (LabelV { key: key@, value: value@ }),
    {
        Label { key: String::from_str(key), value }
    }

    /// The label key.
    pub fn key(&self) -> (r: &str)
        ensures
            r@ == self@.key,
    {
        self.key.as_str()
    }

    /// The label value.
    pub fn value(&self) -> (r: &str)
        ensures
            r@ == self@.value,
    {
        self.value.as_str()
    }
}

/// Identifies one series in the sink: a name plus an ordered label set.
#[derive(Debug)]
pub struct Key {
    name: String,
    labels: Vec<Label>,
}

impl View for Key {
    type V = KeyV;

    closed spec fn view(&self) -> KeyV {
        KeyV { name: self.name@, labels: self.labels@.map_values(|l: Label| l@) }
    }
}

impl Key {
    /// Create a key from a series name and its labels.
    pub fn from_parts(name: String, labels: Vec<Label>) -> (r: Key)
        ensures
            r@ == (KeyV { name: name@, labels: labels@.map_values(|l: Label| l@) }),
    {
        Key { name, labels }
    }

    /// Whether two keys identify the same series.
    pub fn matches(&self, other: &Key) -> (r: bool)
        ensures
            r == (self@ == other@),
    {
        if !(self.name == other.name) {
            return false;
        }
        if self.labels.len() != other.labels.len() {
            assert(self@.labels.len() != other@.labels.len());
            return false;
        }
        let n = self.labels.len();
        let mut i: usize = 0;
        while i < n
            invariant
                i <= n,
                n == self.labels.len(),
                n == other.labels.len(),
                self@.name == other@.name,
                forall|j: int| 0 <= j < i ==> self@.labels[j] == other@.labels[j],
            decreases n - i,
        {
            let a = &self.labels[i];
            let b = &other.labels[i];
            if !(a.key == b.key) || !(a.value == b.value) {
                assert(self@.labels[i as int] != other@.labels[i as int]);
                return false;
            }
            assert(self@.labels[i as int] == other@.labels[i as int]);
            i += 1;
        }
        assert(self@.labels =~= other@.labels);
        assert(self@ =~= other@);
        true
    }
}

/// The unit with which a metric is emitted.  It is cosmetic: it only
/// decorates the description registered with the sink.
#[derive(Clone, Copy, Debug, PartialEq, Eq, Structural)]
pub enum Unit {
    /// A dimensionless count of events.
    Count,
    /// A number of bytes.
    Bytes,
    /// A duration in seconds.
    Seconds,
    /// A ratio expressed in percent.
    Percent,
}

/// A registered, incrementable reference to one series in a [`Recorder`].
///
/// A handle either addresses one series, or is a no-op handle that ignores
/// every increment.
#[derive(Clone, Copy, Debug)]
pub struct CounterHandle {
    target: Option<usize>,
}

impl CounterHandle {
    /// The series this handle increments, or `None` for a no-op handle.
    pub closed spec fn spec_target(self) -> Option<usize> {
        self.target
    }

    /// A handle that ignores every increment.
    pub fn noop() -> (r: CounterHandle)
        ensures
            r.spec_target() is None,
    {
        CounterHandle { target: None }
    }
}

/// The accumulated value of the first series in `series` whose key is
/// `key`, if any.
pub open spec fn spec_lookup(series: Seq<(KeyV, u64)>, key: KeyV) -> Option<u64>
    decreases series.len(),
{
    if series.len() == 0 {
        None
    } else if series[0].0 == key {
        Some(series[0].1)
    } else {
        spec_lookup(series.skip(1), key)
    }
}

/// An in-memory metric sink.
///
/// It registers named, labeled counter series and accepts non-negative
/// increments through [`CounterHandle`]s.  Each registration appends a
/// fresh series, so distinct handles always address distinct series.
/// Accumulation saturates at `u64::MAX` rather than wrapping.
#[derive(Debug)]
pub struct Recorder {
    keys: Vec<Key>,
    values: Vec<u64>,
    descriptions: Vec<(String, Unit, String)>,
}

impl Recorder {
    /// The registered series, in registration order, each with its
    /// accumulated value.
    pub closed spec fn series(&self) -> Seq<(KeyV, u64)> {
        Seq::new(self.keys@.len(), |i: int| (self.keys@[i]@, self.values@[i]))
    }

    /// The descriptions recorded so far, in order.
    pub closed spec fn descs(&self) -> Seq<(Seq<char>, Unit, Seq<char>)> {
        self.descriptions@.map_values(|d: (String, Unit, String)| (d.0@, d.1, d.2@))
    }

    /// Internal consistency: every series has an accumulated value.
    pub closed spec fn wf(&self) -> bool {
        self.keys@.len() == self.values@.len()
    }

    /// Create an empty sink.
    pub fn new() -> (r: Recorder)
        ensures
            r.wf(),
            r.series() == Seq::<(KeyV, u64)>::empty(),
            r.descs() == Seq::<(Seq<char>, Unit, Seq<char>)>::empty(),
    {
        let r = Recorder { keys: Vec::new(), values: Vec::new(), descriptions: Vec::new() };
        proof {
            assert(r.series() =~= Seq::<(KeyV, u64)>::empty());
            assert(r.descs() =~= Seq::<(Seq<char>, Unit, Seq<char>)>::empty());
        }
        r
    }

    /// Record a description for a meter name.
    pub fn describe_counter(&mut self, name: String, unit: Unit, description: String)
        requires
            old(self).wf(),
        ensures
            final(self).wf(),
            final(self).series() == old(self).series(),
            final(self).descs() == old(self).descs().push((name@, unit, description@)),
    {
        let ghost nm = name@;
        let ghost ds = description@;
        self.descriptions.push((name, unit, description));
        proof {
            assert(self.series() =~= old(self).series());
            assert(self.descs() =~= old(self).descs().push((nm, unit, ds)));
        }
    }

    /// Register a fresh series under `key`, with accumulated value zero,
    /// and return a handle addressing it.
    pub fn register_counter(&mut self, key: Key) -> (h: CounterHandle)
        requires
            old(self).wf(),
        ensures
            final(self).wf(),
            h.spec_target() is Some,
            h.spec_target() matches Some(t) ==> t == old(self).series().len(),
            final(self).series() == old(self).series().push((key@, 0u64)),
            final(self).descs() == old(self).descs(),
    {
        let ghost kv = key@;
        let idx = self.keys.len();
        self.keys.push(key);
        self.values.push(0);
        proof {
            assert(self.series() =~= old(self).series().push((kv, 0u64)));
        }
        CounterHandle { target: Some(idx) }
    }

    /// Add `value` to the series addressed by `handle`, saturating at
    /// `u64::MAX`.  A no-op handle leaves the sink unchanged; no other
    /// series is touched.  An increment of zero is accepted.
    pub fn increment(&mut self, handle: &CounterHandle, value: u64)
        requires
            old(self).wf(),
            handle.spec_target() matches Some(t) ==> t < old(self).series().len(),
        ensures
            final(self).wf(),
            final(self).descs() == old(self).descs(),
            match handle.spec_target() {
                Some(t) => final(self).series() == old(self).series().update(
                    t as int,
                    (old(self).series()[t as int].0, old(self).series()[t as int].1.saturating_add(value)),
                ),
                None => final(self).series() == old(self).series(),
            },
    {
        match handle.target {
            Some(t) => {
                let cur = self.values[t];
                self.values[t] = cur.saturating_add(value);
                proof {
                    assert(self.series() =~= old(self).series().update(
                        t as int,
                        (old(self).series()[t as int].0, old(self).series()[t as int].1.saturating_add(value)),
                    ));
                }
            },
            None => {
                proof {
                    assert(self.series() =~= old(self).series());
                }
            },
        }
    }

    /// The accumulated value of the first series registered under `key`,
    /// if any.
    pub fn get_counter(&self, key: &Key) -> (r: Option<u64>)
        requires
            self.wf(),
        ensures
            r == spec_lookup(self.series(), key@),
    {
        let n = self.keys.len();
        let mut i: usize = 0;
        proof {
            assert(self.series().skip(0) =~= self.series());
        }
        while i < n
            invariant
                self.wf(),
                i <= n,
                n == self.keys@.len(),
                spec_lookup(self.series(), key@) == spec_lookup(self.series().skip(i as int), key@),
                forall|j: int| 0 <= j < i ==> self.series()[j].0 != key@,
            decreases n - i,
        {
            if self.keys[i].matches(key) {
                assert(self.series().skip(i as int)[0] == self.series()[i as int]);
                return Some(self.values[i]);
            }
            proof {
                assert(self.series().skip(i as int)[0] == self.series()[i as int]);
                assert(self.series().skip(i as int).skip(1) =~= self.series().skip(i + 1));
            }
            i += 1;
        }
        proof {
            assert(self.series().skip(i as int).len() == 0);
        }
        None
    }
}

/// The decimal digit character for a value below ten.
pub open spec fn spec_digit(d: nat) -> char {
    if d == 0 { '0' }
    else if d == 1 { '1' }
    else if d == 2 { '2' }
    else if d == 3 { '3' }
    else if d == 4 { '4' }
    else if d == 5 { '5' }
    else if d == 6 { '6' }
    else if d == 7 { '7' }
    else if d == 8 { '8' }
    else { '9' }
}

/// The decimal digit characters of `n`, most significant digit first.
pub open spec fn spec_dec(n: nat) -> Seq<char>
    decreases n,
{
    if n < 10 {
        seq![spec_digit(n)]
    } else {
        spec_dec(n / 10).push(spec_digit(n % 10))
    }
}

/// Relies on `u32`'s std `ToString` implementation: the returned string
/// holds exactly the decimal digits of the value, most significant first.
#[verifier::external_body]
pub(crate) fn u32_to_string(v: u32) -> (r: String)
    ensures
        r@ == spec_dec(v as nat),
{
    v.to_string()
}

} // verus!
