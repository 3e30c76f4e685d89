use vstd::prelude::*;

verus! {

/// A character that may stand in a decimal number.
pub open spec fn is_digit(c: char) -> bool {
    '0' <= c && c <= '9'
}

/// The value of one decimal digit.
pub open spec fn digit_value(c: char) -> nat {
    ((c as u32) - ('0' as u32)) as nat
}

pub open spec fn all_digits(s: Seq<char>) -> bool {
    forall|i: int| 0 <= i < s.len() ==> #[trigger] is_digit(s[i])
}

/// The number that a string of decimal digits denotes.
pub open spec fn digits_value(s: Seq<char>) -> nat
    decreases s.len(),
{
    if s.len() == 0 {
        0
    } else {
        digits_value(s.drop_last()) * 10 + digit_value(s.last())
    }
}

/// The digits of a millisecond count: an optional leading `+` is dropped.
pub open spec fn digit_part(s: Seq<char>) -> Seq<char> {
    if s.len() > 0 && s[0] == '+' {
        s.drop_first()
    } else {
        s
    }
}

/// The millisecond count that a configured cycle time denotes, if it is one:
/// at least one decimal digit after an optional `+`, and a value that fits in `u64`.
pub open spec fn millis_of(s: Seq<char>) -> Option<u64> {
    let d = digit_part(s);
    if d.len() > 0 && all_digits(d) && digits_value(d) <= u64::MAX {
        Some(digits_value(d) as u64)
    } else {
        None
    }
}

/// The polling interval of a device: a millisecond count that is not zero.
pub open spec fn interval_of(s: Seq<char>) -> Option<u64> {
    match millis_of(s) {
        Some(ms) => if ms > 0 {
            Some(ms)
        } else {
            None
        },
        None => None,
    }
}

proof fn lemma_prefix_value_le(s: Seq<char>, k: int)
    requires
        all_digits(s),
        0 <= k <= s.len(),
    ensures
        digits_value(s.subrange(0, k)) <= digits_value(s),
    decreases s.len(),
{
    if k < s.len() {
        let t = s.drop_last();
        assert(t.subrange(0, k) =~= s.subrange(0, k));
        assert(all_digits(t)) by {
            assert forall|i: int| 0 <= i < t.len() implies #[trigger] is_digit(t[i]) by {
                assert(is_digit(s[i]));
            }
        }
        lemma_prefix_value_le(t, k);
    } else {
        assert(s.subrange(0, k) =~= s);
    }
}

/// Reads a configured cycle time as a count of milliseconds.
///
/// Accepts what an unsigned decimal number is written as: an optional `+`
/// and then one or more ASCII digits, with a value that fits in `u64`.
pub fn parse_millis(s: &str) -> (r: Option<u64>)
    ensures
        r == millis_of(s@),
{
    let n = s.unicode_len();
    let mut start: usize = 0;
    if n > 0 && s.get_char(0) == '+' {
        start = 1;
    }
    let ghost d = digit_part(s@);
    assert(d =~= s@.subrange(start as int, n as int));
    if start == n {
        return None;
    }
    let mut acc: u64 = 0;
    let mut i: usize = start;
    while i < n
        invariant
            start <= i <= n,
            n == s@.len(),
            d == s@.subrange(start as int, n as int),
            d == digit_part(s@),
            all_digits(d.subrange(0, i - start)),
            acc as nat == digits_value(d.subrange(0, i - start)),
        decreases n - i,
    {
        let c = s.get_char(i);
        let ghost k: int = i - start;
        assert(d[k] == c);
        if !('0' <= c && c <= '9') {
            assert(!is_digit(d[k]));
            return None;
        }
        let dv: u64 = (c as u32 - '0' as u32) as u64;
        assert(d.subrange(0, k + 1).drop_last() =~= d.subrange(0, k));
        assert(d.subrange(0, k + 1).last() == c);
        assert(digit_value(c) == dv as nat);
        assert(digits_value(d.subrange(0, k + 1)) == acc * 10 + dv);
        if acc > (u64::MAX - dv) / 10 {
            assert(digits_value(d.subrange(0, k + 1)) > u64::MAX) by (nonlinear_arith)
                requires
                    acc > (u64::MAX - dv) / 10,
                    digits_value(d.subrange(0, k + 1)) == acc * 10 + dv,
            ;
            proof {
                if all_digits(d) {
                    lemma_prefix_value_le(d, k + 1);
                }
            }
            return None;
        }
        assert(acc * 10 + dv <= u64::MAX) by (nonlinear_arith)
            requires
                acc <= (u64::MAX - dv) / 10,
                dv <= 9,
        ;
        acc = acc * 10 + dv;
        i = i + 1;
        assert forall|j: int| 0 <= j < k + 1 implies #[trigger] is_digit(
            d.subrange(0, k + 1)[j],
        ) by {
            if j < k {
                assert(d.subrange(0, k + 1)[j] == d.subrange(0, k)[j]);
            }
        }
    }
    assert(d.subrange(0, n - start) =~= d);
    Some(acc)
}

/// Reads a configured cycle time as a polling interval: a millisecond count
/// that is not zero.
pub fn parse_interval(s: &str) -> (r: Option<u64>)
    ensures
        r == interval_of(s@),
{
    match parse_millis(s) {
        Some(ms) => if ms > 0 {
            Some(ms)
        } else {
            None
        },
        None => None,
    }
}


/// Where a device's value is read from, and how often.
pub struct DeviceConfig {
    pub file: String,
    pub cycle_time_ms: String,
}

/// What a device's configuration holds.
pub struct ConfigView {
    pub file: Seq<char>,
    pub cycle_time_ms: Seq<char>,
}

impl View for DeviceConfig {
    type V = ConfigView;

    open spec fn view(&self) -> ConfigView {
        ConfigView { file: self.file@, cycle_time_ms: self.cycle_time_ms@ }
    }
}

impl DeviceConfig {
    pub fn new(file: String, cycle_time_ms: String) -> (r: DeviceConfig)
        ensures
            r.file@ == file@,
            r.cycle_time_ms@ == cycle_time_ms@,
    {
        DeviceConfig { file, cycle_time_ms }
    }

    /// A copy with the same text in each field.
    pub fn duplicate(&self) -> (r: DeviceConfig)
        ensures
            r@ == self@,
    {
        DeviceConfig { file: self.file.clone(), cycle_time_ms: self.cycle_time_ms.clone() }
    }

    /// Whether the two configurations hold the same text in each field.
    pub fn same_as(&self, other: &DeviceConfig) -> (r: bool)
        ensures
            r == (self@ == other@),
    {
        self.file == other.file && self.cycle_time_ms == other.cycle_time_ms
    }
}

/// No name occurs twice among the entries.
pub open spec fn names_distinct<V>(s: Seq<(Seq<char>, V)>) -> bool {
    forall|i: int, j: int|
        0 <= i < s.len() && 0 <= j < s.len() && i != j ==> #[trigger] s[i].0 != #[trigger] s[j].0
}

/// Whether some entry carries the name.
pub open spec fn has_name<V>(s: Seq<(Seq<char>, V)>, k: Seq<char>) -> bool {
    exists|i: int| 0 <= i < s.len() && #[trigger] s[i].0 == k
}

/// The entries with the one named `k` given the value `v`: replaced in place
/// where the name is present, appended where it is not.
pub open spec fn upsert<V>(s: Seq<(Seq<char>, V)>, k: Seq<char>, v: V) -> Seq<(Seq<char>, V)> {
    if has_name(s, k) {
        s.update(choose|i: int| 0 <= i < s.len() && #[trigger] s[i].0 == k, (k, v))
    } else {
        s.push((k, v))
    }
}

/// Two device sets are the same when they hold the same named configurations,
/// in whatever order.
pub open spec fn same_devices(a: Seq<(Seq<char>, ConfigView)>, b: Seq<(Seq<char>, ConfigView)>) -> bool {
    a.to_set() == b.to_set()
}

/// The index of the entry that carries `name`, if one does.
pub fn position<V>(entries: &Vec<(String, V)>, name: &String) -> (r: Option<usize>)
    ensures
        match r {
            Some(i) => i < entries@.len() && entries@[i as int].0@ == name@,
            None => forall|i: int| 0 <= i < entries@.len() ==> #[trigger] entries@[i].0@ != name@,
        },
{
    let mut i: usize = 0;
    while i < entries.len()
        invariant
            i <= entries@.len(),
            forall|j: int| 0 <= j < i ==> #[trigger] entries@[j].0@ != name@,
        decreases entries@.len() - i,
    {
        if entries[i].0 == *name {
            return Some(i);
        }
        i = i + 1;
    }
    None
}

pub(crate) proof fn lemma_upsert_at<V>(s: Seq<(Seq<char>, V)>, i: int, k: Seq<char>, v: V)
    requires
        names_distinct(s),
        0 <= i < s.len(),
        s[i].0 == k,
    ensures
        upsert(s, k, v) == s.update(i, (k, v)),
        names_distinct(upsert(s, k, v)),
{
    let j = choose|j: int| 0 <= j < s.len() && #[trigger] s[j].0 == k;
    assert(j == i);
    let t = s.update(i, (k, v));
    assert forall|a: int, b: int| 0 <= a < t.len() && 0 <= b < t.len() && a != b implies #[trigger] t[a].0 != #[trigger] t[b].0 by {
        assert(s[a].0 != s[b].0);
    }
}

pub(crate) proof fn lemma_upsert_new<V>(s: Seq<(Seq<char>, V)>, k: Seq<char>, v: V)
    requires
        names_distinct(s),
        !has_name(s, k),
    ensures
        upsert(s, k, v) == s.push((k, v)),
        names_distinct(upsert(s, k, v)),
{
    let t = s.push((k, v));
    assert forall|a: int, b: int| 0 <= a < t.len() && 0 <= b < t.len() && a != b implies #[trigger] t[a].0 != #[trigger] t[b].0 by {
        if a < s.len() && b < s.len() {
            assert(s[a].0 != s[b].0);
        } else if a < s.len() {
            assert(s[a].0 == t[a].0);
        } else {
            assert(s[b].0 == t[b].0);
        }
    }
}

/// Sets the entry named `name` to `value` in a `Vec` of named entries:
/// the entry is replaced where the name is present, else one is appended.
/// Returns the index of the replaced entry.
pub fn upsert_entry<V>(entries: &mut Vec<(String, V)>, name: String, value: V) -> (r: Option<usize>)
    ensures
        match r {
            Some(i) => i < old(entries)@.len() && old(entries)@[i as int].0@ == name@
                && final(entries)@ == old(entries)@.update(i as int, (name, value)),
            None => (forall|j: int| 0 <= j < old(entries)@.len() ==> #[trigger] old(entries)@[j].0@ != name@)
                && final(entries)@ == old(entries)@.push((name, value)),
        },
{
    match position(entries, &name) {
        Some(i) => {
            entries.set(i, (name, value));
            Some(i)
        },
        None => {
            entries.push((name, value));
            None
        },
    }
}

} // verus!

verus! {

/// The devices to supervise: configurations by unique name.
pub struct DeviceSet {
    entries: Vec<(String, DeviceConfig)>,
}

impl View for DeviceSet {
    type V = Seq<(Seq<char>, ConfigView)>;

    closed spec fn view(&self) -> Seq<(Seq<char>, ConfigView)> {
        self.entries@.map_values(|e: (String, DeviceConfig)| (e.0@, e.1@))
    }
}

impl DeviceSet {
    /// No name occurs twice.
    pub open spec fn wf(&self) -> bool {
        names_distinct(self@)
    }

    pub fn new() -> (r: DeviceSet)
        ensures
            r@ == Seq::<(Seq<char>, ConfigView)>::empty(),
            r.wf(),
    {
        let r = DeviceSet { entries: Vec::new() };
        assert(r@ =~= Seq::<(Seq<char>, ConfigView)>::empty());
        r
    }

    /// Gives the device `name` the configuration `config`, replacing the one it had.
    pub fn insert(&mut self, name: String, config: DeviceConfig)
        requires
            old(self).wf(),
        ensures
            final(self)@ == upsert(old(self)@, name@, config@),
            final(self).wf(),
    {
        let ghost s = self@;
        let ghost k = name@;
        let ghost v = config@;
        match upsert_entry(&mut self.entries, name, config) {
            Some(i) => {
                proof {
                    lemma_upsert_at(s, i as int, k, v);
                }
                assert(self@ =~= s.update(i as int, (k, v)));
            },
            None => {
                proof {
                    assert(!has_name(s, k));
                    lemma_upsert_new(s, k, v);
                }
                assert(self@ =~= s.push((k, v)));
            },
        }
    }

    pub fn len(&self) -> (r: usize)
        ensures
            r == self@.len(),
    {
        self.entries.len()
    }

    /// The name and configuration of the `i`-th device.
    pub fn entry(&self, i: usize) -> (r: (&String, &DeviceConfig))
        requires
            i < self@.len(),
        ensures
            (r.0@, r.1@) == self@[i as int],
    {
        (&self.entries[i].0, &self.entries[i].1)
    }

    /// A copy that holds the same devices in the same order.
    pub fn duplicate(&self) -> (r: DeviceSet)
        ensures
            r@ == self@,
    {
        let mut entries: Vec<(String, DeviceConfig)> = Vec::new();
        let mut i: usize = 0;
        while i < self.entries.len()
            invariant
                i <= self.entries@.len(),
                entries@.len() == i,
                entries@.map_values(|e: (String, DeviceConfig)| (e.0@, e.1@)) =~= self@.subrange(0, i as int),
            decreases self.entries@.len() - i,
        {
            let e = &self.entries[i];
            assert(self@[i as int] == (e.0@, e.1@));
            let ghost before = entries@;
            let item = (e.0.clone(), e.1.duplicate());
            assert((item.0@, item.1@) == self@[i as int]);
            entries.push(item);
            assert forall|j: int| 0 <= j < i implies entries@[j] == before[j] by {}
            assert(entries@.map_values(|e: (String, DeviceConfig)| (e.0@, e.1@)) =~= self@.subrange(0, i + 1)) by {
                assert forall|j: int| 0 <= j < i implies #[trigger] self@.subrange(0, i as int)[j] == (before[j].0@, before[j].1@) by {
                    assert(before.map_values(|e: (String, DeviceConfig)| (e.0@, e.1@))[j] == (before[j].0@, before[j].1@));
                }
            }
            i = i + 1;
        }
        let r = DeviceSet { entries };
        assert(r@ =~= self@);
        r
    }

    /// Whether the device `name` is configured as `config`.
    fn holds(&self, name: &String, config: &DeviceConfig) -> (r: bool)
        ensures
            r == self@.contains((name@, config@)),
    {
        let mut i: usize = 0;
        while i < self.entries.len()
            invariant
                i <= self.entries@.len(),
                forall|j: int| 0 <= j < i ==> self@[j] != (name@, config@),
            decreases self.entries@.len() - i,
        {
            let e = &self.entries[i];
            if e.0 == *name && e.1.same_as(config) {
                assert(self@[i as int] == (name@, config@));
                return true;
            }
            i = i + 1;
        }
        false
    }

    /// Whether every device of `self` is configured the same way in `other`.
    fn within(&self, other: &DeviceSet) -> (r: bool)
        ensures
            r == (forall|x| self@.contains(x) ==> other@.contains(x)),
    {
        let mut i: usize = 0;
        while i < self.entries.len()
            invariant
                i <= self.entries@.len(),
                forall|j: int| 0 <= j < i ==> other@.contains(#[trigger] self@[j]),
            decreases self.entries@.len() - i,
        {
            let e = &self.entries[i];
            if !other.holds(&e.0, &e.1) {
                assert(self@.contains(self@[i as int]));
                return false;
            }
            i = i + 1;
        }
        true
    }

    /// Whether the two sets hold the same named configurations, in whatever order.
    pub fn same_as(&self, other: &DeviceSet) -> (r: bool)
        ensures
            r == same_devices(self@, other@),
    {
        let a = self.within(other);
        let b = other.within(self);
        if a && b {
            assert(self@.to_set() =~= other@.to_set());
            true
        } else {
            proof {
                if !a {
                    let x = choose|x| self@.contains(x) && !other@.contains(x);
                    assert(self@.to_set().contains(x));
                    assert(!other@.to_set().contains(x));
                } else {
                    let x = choose|x| other@.contains(x) && !self@.contains(x);
                    assert(other@.to_set().contains(x));
                    assert(!self@.to_set().contains(x));
                }
            }
            false
        }
    }
}

} // verus!
