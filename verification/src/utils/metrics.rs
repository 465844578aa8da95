//! Prometheus-style counters and gauges kept by the canister, and their text
//! exposition.
use vstd::prelude::*;
use vstd::string::{StrSliceExecFns, StringExecFns};
use vstd::utf8::encode_utf8;
use crate::utils::text::{decimal, decimal_string, str_to_string};

verus! {

/// The characters of each string, in order.
pub open spec fn strs(v: Seq<String>) -> Seq<Seq<char>> {
    v.map_values(|s: String| s@)
}

/// The characters of each string slice, in order.
pub open spec fn strs_of(v: Seq<&str>) -> Seq<Seq<char>> {
    v.map_values(|s: &str| s@)
}

/// Whether two lists of strings hold the same strings in the same order.
pub fn strings_eq(a: &Vec<String>, b: &Vec<String>) -> (res: bool)
    ensures
        res == (strs(a@) == strs(b@)),
{
    if a.len() != b.len() {
        proof {
            assert(strs(a@).len() != strs(b@).len());
        }
        return false;
    }
    let mut i: usize = 0;
    while i < a.len()
        invariant
            a@.len() == b@.len(),
            i <= a@.len(),
            forall|j: int| 0 <= j < i ==> a@[j]@ == b@[j]@,
        decreases a@.len() - i,
    {
        if a[i] != b[i] {
            proof {
                assert(strs(a@)[i as int] != strs(b@)[i as int]);
            }
            return false;
        }
        i = i + 1;
    }
    assert(strs(a@) =~= strs(b@));
    true
}

/// A copy of a list of strings.
pub fn clone_strings(v: &Vec<String>) -> (res: Vec<String>)
    ensures
        strs(res@) == strs(v@),
{
    let mut res: Vec<String> = Vec::new();
    let mut i: usize = 0;
    while i < v.len()
        invariant
            i <= v@.len(),
            res@.len() == i,
            forall|j: int| 0 <= j < i ==> res@[j]@ == v@[j]@,
        decreases v@.len() - i,
    {
        res.push(v[i].clone());
        i = i + 1;
    }
    assert(strs(res@) =~= strs(v@));
    res
}

/// One value of a metric, under one combination of label values.
pub struct Inner {
    pub value: u128,
    pub label_values: Vec<String>,
}

impl Inner {
    pub fn new(value: u128, label_values: Vec<String>) -> (res: Self)
        ensures
            res.value == value,
            res.label_values == label_values,
    {
        Inner { value, label_values }
    }

    /// Adds one, staying at the largest value once there.
    pub fn inc(&mut self)
        ensures
            final(self).value == (if old(self).value == u128::MAX { u128::MAX } else { (old(self).value + 1) as u128 }),
            final(self).label_values == old(self).label_values,
    {
        self.value = self.value.saturating_add(1);
    }

    /// Takes one away, staying at zero once there.
    pub fn dec(&mut self)
        ensures
            final(self).value == (if old(self).value == 0 { 0 } else { (old(self).value - 1) as u128 }),
            final(self).label_values == old(self).label_values,
    {
        self.value = self.value.saturating_sub(1);
    }

    pub fn set(&mut self, value: u128)
        ensures
            final(self).value == value,
            final(self).label_values == old(self).label_values,
    {
        self.value = value;
    }

    pub fn get(&self) -> (res: u128)
        ensures
            res == self.value,
    {
        self.value
    }
}

/// A named metric: one list of values for each combination of label values
/// that has been used, kept in the order in which the combinations appeared.
pub struct Metric {
    pub name: String,
    pub help: String,
    pub typ: String,
    pub label_names: Vec<String>,
    pub inner: Vec<(Vec<String>, Vec<Inner>)>,
}

/// `e` is the entry that a first use of the label values `k` creates, holding `v`.
pub open spec fn fresh_entry(e: (Vec<String>, Vec<Inner>), k: Seq<Seq<char>>, v: u128) -> bool {
    &&& strs(e.0@) == k
    &&& e.1@.len() == 1
    &&& e.1@[0].value == v
    &&& strs(e.1@[0].label_values@) == k
}

/// The label values of each entry, in order.
pub open spec fn keys_of(s: Seq<(Vec<String>, Vec<Inner>)>) -> Seq<Seq<Seq<char>>> {
    s.map_values(|e: (Vec<String>, Vec<Inner>)| strs(e.0@))
}

/// A mutable reference to the first value of the `idx`-th entry; the label
/// values of every entry stay as they are.
fn entry_value_mut(v: &mut Vec<(Vec<String>, Vec<Inner>)>, idx: usize) -> (res: &mut Inner)
    requires
        idx < old(v)@.len(),
        old(v)@[idx as int].1@.len() >= 1,
    ensures
        *res == old(v)@[idx as int].1@[0],
        final(v)@.len() == old(v)@.len(),
        keys_of(final(v)@) == keys_of(old(v)@),
        forall|j: int| 0 <= j < old(v)@.len() && j != idx ==> final(v)@[j] == old(v)@[j],
        final(v)@[idx as int].1@ == old(v)@[idx as int].1@.update(0, *final(res)),
{
    &mut v[idx].1[0]
}

impl Metric {
    /// The label values of every entry, in order.
    pub open spec fn keys(&self) -> Seq<Seq<Seq<char>>> {
        keys_of(self.inner@)
    }

    /// The label values of the `i`-th entry.
    pub open spec fn key(&self, i: int) -> Seq<Seq<char>> {
        keys_of(self.inner@)[i]
    }

    /// No combination of label values occurs twice, and each has a value.
    pub open spec fn wf(&self) -> bool {
        &&& forall|i: int, j: int|
            0 <= i < self.inner@.len() && 0 <= j < self.inner@.len() && i != j
                ==> #[trigger] keys_of(self.inner@)[i] != #[trigger] keys_of(self.inner@)[j]
        &&& forall|i: int| 0 <= i < self.inner@.len() ==> (#[trigger] self.inner@[i]).1@.len() >= 1
    }

    pub open spec fn has_key(&self, k: Seq<Seq<char>>) -> bool {
        exists|i: int| 0 <= i < self.inner@.len() && #[trigger] self.key(i) == k
    }

    /// The entry that holds the label values `k`, when there is one.
    pub open spec fn slot(&self, k: Seq<Seq<char>>) -> int {
        choose|i: int| 0 <= i < self.inner@.len() && #[trigger] self.key(i) == k
    }

    /// The entry that `k` names once it has been used: its own, or a new last one.
    pub open spec fn slot_for(&self, k: Seq<Seq<char>>) -> int {
        if self.has_key(k) { self.slot(k) } else { self.inner@.len() as int }
    }

    /// The value read without labels: that of the entry with no label values, or zero.
    pub open spec fn plain_value(&self) -> u128 {
        if self.has_key(seq![]) { self.inner@[self.slot(seq![])].1@[0].value } else { 0 }
    }

    /// Name, help text, type and label names are those of `other`.
    pub open spec fn same_header(&self, other: &Metric) -> bool {
        &&& self.name@ == other.name@
        &&& self.help@ == other.help@
        &&& self.typ@ == other.typ@
        &&& strs(self.label_names@) == strs(other.label_names@)
    }

    /// `self` is `old` after the entry with no label values was made with `v`,
    /// where it was missing; an existing one is left as it is.
    pub open spec fn plain_entry_made(&self, old: &Metric, v: u128) -> bool {
        &&& self.same_header(old)
        &&& if old.has_key(seq![]) {
            self.inner@ == old.inner@
        } else {
            &&& self.inner@.len() == old.inner@.len() + 1
            &&& self.inner@.subrange(0, old.inner@.len() as int) == old.inner@
            &&& fresh_entry(self.inner@.last(), seq![], v)
        }
    }

    pub fn new(name: &str, help: &str, typ: &str, label_names: &[&str]) -> (res: Self)
        ensures
            res.name@ == name@,
            res.help@ == help@,
            res.typ@ == typ@,
            strs(res.label_names@) == strs_of(label_names@),
            res.inner@.len() == 0,
            res.wf(),
    {
        let mut names: Vec<String> = Vec::new();
        let mut i: usize = 0;
        while i < label_names.len()
            invariant
                i <= label_names@.len(),
                names@.len() == i,
                forall|j: int| 0 <= j < i ==> names@[j]@ == label_names@[j]@,
            decreases label_names@.len() - i,
        {
            names.push(str_to_string(label_names[i]));
            i = i + 1;
        }
        assert(strs(names@) =~= strs_of(label_names@));
        Metric {
            name: str_to_string(name),
            help: str_to_string(help),
            typ: str_to_string(typ),
            label_names: names,
            inner: Vec::new(),
        }
    }

    /// The index of the entry holding the label values `k`, if any.
    fn find_key(&self, k: &Vec<String>) -> (res: Option<usize>)
        requires
            self.wf(),
        ensures
            match res {
                Some(i) => i < self.inner@.len() && self.key(i as int) == strs(k@) && self.slot(strs(k@)) == i,
                None => !self.has_key(strs(k@)),
            },
    {
        let mut i: usize = 0;
        while i < self.inner.len()
            invariant
                self.wf(),
                i <= self.inner@.len(),
                forall|j: int| 0 <= j < i ==> #[trigger] self.key(j) != strs(k@),
            decreases self.inner@.len() - i,
        {
            if strings_eq(&self.inner[i].0, k) {
                proof {
                    let s = self.slot(strs(k@));
                    assert(self.key(i as int) == strs(k@));
                    assert(self.has_key(strs(k@)));
                    assert(self.key(s) == strs(k@));
                }
                return Some(i);
            }
            i = i + 1;
        }
        None
    }

    /// Makes the entry with no label values, holding `v`, where it is missing.
    fn make_plain_entry(&mut self, v: u128)
        requires
            old(self).wf(),
        ensures
            final(self).wf(),
            final(self).plain_entry_made(&*old(self), v),
    {
        let none: Vec<String> = Vec::new();
        proof {
            assert(strs(none@) =~= Seq::<Seq<char>>::empty());
        }
        match self.find_key(&none) {
            Some(i) => {
                proof {
                    assert(self.key(i as int) == Seq::<Seq<char>>::empty());
                }
            },
            None => {
                let e: (Vec<String>, Vec<Inner>) = (Vec::new(), vec![Inner::new(v, Vec::new())]);
                proof {
                    assert(strs(e.0@) =~= Seq::<Seq<char>>::empty());
                    assert(strs(e.1@[0].label_values@) =~= Seq::<Seq<char>>::empty());
                }
                let ghost before = self.inner@;
                self.inner.push(e);
                proof {
                    assert(self.inner@.subrange(0, before.len() as int) =~= before);
                    assert forall|i: int, j: int|
                        0 <= i < self.inner@.len() && 0 <= j < self.inner@.len() && i != j implies #[trigger] keys_of(self.inner@)[i] != #[trigger] keys_of(self.inner@)[j] by {
                        if i < before.len() && j < before.len() {
                            assert(self.inner@[i] == before[i] && self.inner@[j] == before[j]);
                            assert(self.key(i) == old(self).key(i));
                            assert(self.key(j) == old(self).key(j));
                        } else if i < before.len() {
                            assert(self.inner@[i] == before[i]);
                            assert(self.key(i) == old(self).key(i));
                            assert(self.key(j) == Seq::<Seq<char>>::empty());
                            if self.key(i) == Seq::<Seq<char>>::empty() {
                                assert(old(self).key(i) == Seq::<Seq<char>>::empty());
                            }
                        } else {
                            assert(self.inner@[j] == before[j]);
                            assert(self.key(j) == old(self).key(j));
                            assert(self.key(i) == Seq::<Seq<char>>::empty());
                            if self.key(j) == Seq::<Seq<char>>::empty() {
                                assert(old(self).key(j) == Seq::<Seq<char>>::empty());
                            }
                        }
                    }
                    assert forall|i: int| 0 <= i < self.inner@.len() implies (#[trigger] self.inner@[i]).1@.len() >= 1 by {
                        if i < before.len() {
                            assert(self.inner@[i] == before[i]);
                        }
                    }
                }
            },
        }
    }

    /// Makes the value without labels, starting at one; an existing one is
    /// left unchanged.
    pub fn inc(&mut self)
        requires
            old(self).wf(),
        ensures
            final(self).wf(),
            final(self).plain_entry_made(&*old(self), 1),
    {
        self.make_plain_entry(1);
    }

    /// Makes the value without labels, starting at zero; an existing one is
    /// left unchanged.
    pub fn dec(&mut self)
        requires
            old(self).wf(),
        ensures
            final(self).wf(),
            final(self).plain_entry_made(&*old(self), 0),
    {
        self.make_plain_entry(0);
    }

    /// Makes the value without labels, starting at `value`; an existing one is
    /// left unchanged.
    pub fn set(&mut self, value: u128)
        requires
            old(self).wf(),
        ensures
            final(self).wf(),
            final(self).plain_entry_made(&*old(self), value),
    {
        self.make_plain_entry(value);
    }

    /// The value without labels, or zero where there is none.
    pub fn get(&self) -> (res: u128)
        requires
            self.wf(),
        ensures
            res == self.plain_value(),
    {
        let none: Vec<String> = Vec::new();
        proof {
            assert(strs(none@) =~= Seq::<Seq<char>>::empty());
        }
        match self.find_key(&none) {
            Some(i) => self.inner[i].1[0].value,
            None => 0,
        }
    }

    /// As many label values as the metric has label names; other counts are
    /// refused by the precondition.
    pub fn check_label_values(&self, label_values: &[String])
        requires
            label_values@.len() == self.label_names@.len(),
    {
    }

    /// The value under the label values given, made with zero on first use.
    pub fn with_label_values(&mut self, label_values: Vec<String>) -> (res: &mut Inner)
        requires
            old(self).wf(),
            label_values@.len() == old(self).label_names@.len(),
        ensures
            ({
                let k = strs(label_values@);
                let i = old(self).slot_for(k);
                &&& final(self).same_header(&*old(self))
                &&& final(self).wf()
                &&& old(self).has_key(k) ==> *res == old(self).inner@[i].1@[0]
                &&& !old(self).has_key(k) ==> res.value == 0 && strs(res.label_values@) == k
                &&& final(self).inner@.len() == (if old(self).has_key(k) { old(self).inner@.len() } else { old(self).inner@.len() + 1 })
                &&& forall|j: int| 0 <= j < old(self).inner@.len() && j != i ==> final(self).inner@[j] == old(self).inner@[j]
                &&& final(self).key(i) == k
                &&& final(self).inner@[i].1@ == (if old(self).has_key(k) { old(self).inner@[i].1@ } else { seq![*res] }).update(0, *final(res))
            }),
    {
        self.check_label_values(label_values.as_slice());
        let ghost k = strs(label_values@);
        let idx: usize = match self.find_key(&label_values) {
            Some(i) => i,
            None => {
                let lv = clone_strings(&label_values);
                let e: (Vec<String>, Vec<Inner>) = (label_values, vec![Inner::new(0, lv)]);
                let ghost before = self.inner@;
                self.inner.push(e);
                proof {
                    assert forall|i: int, j: int|
                        0 <= i < self.inner@.len() && 0 <= j < self.inner@.len() && i != j implies #[trigger] keys_of(self.inner@)[i] != #[trigger] keys_of(self.inner@)[j] by {
                        if i < before.len() && j < before.len() {
                            assert(self.inner@[i] == before[i] && self.inner@[j] == before[j]);
                            assert(self.key(i) == old(self).key(i));
                            assert(self.key(j) == old(self).key(j));
                        } else if i < before.len() {
                            assert(self.inner@[i] == before[i]);
                            assert(self.key(i) == old(self).key(i));
                            if self.key(i) == k {
                                assert(old(self).key(i) == k);
                            }
                        } else {
                            assert(self.inner@[j] == before[j]);
                            assert(self.key(j) == old(self).key(j));
                            if self.key(j) == k {
                                assert(old(self).key(j) == k);
                            }
                        }
                    }
                    assert forall|i: int| 0 <= i < self.inner@.len() implies (#[trigger] self.inner@[i]).1@.len() >= 1 by {
                        if i < before.len() {
                            assert(self.inner@[i] == before[i]);
                        }
                    }
                }
                self.inner.len() - 1
            },
        };
        entry_value_mut(&mut self.inner, idx)
    }
}

/// `name="value"` for one label.
pub open spec fn label_pair(name: Seq<char>, value: Seq<char>) -> Seq<char> {
    name + "=\""@ + value + "\""@
}

/// The labels paired with their values, as far as both lists go.
pub open spec fn label_pairs(names: Seq<Seq<char>>, values: Seq<Seq<char>>) -> Seq<Seq<char>> {
    let n = if names.len() <= values.len() { names.len() } else { values.len() };
    Seq::new(n, |i: int| label_pair(names[i], values[i]))
}

/// The items separated by commas.
pub open spec fn joined(items: Seq<Seq<char>>) -> Seq<char>
    decreases items.len(),
{
    if items.len() == 0 {
        seq![]
    } else if items.len() == 1 {
        items[0]
    } else {
        joined(items.drop_last()) + ","@ + items.last()
    }
}

/// `# HELP name help` and `# TYPE name type`, one line each.
pub open spec fn header_text(m: &Metric) -> Seq<char> {
    "# HELP "@ + m.name@ + " "@ + m.help@ + "\n"@ + "# TYPE "@ + m.name@ + " "@ + m.typ@ + "\n"@
}

/// The line of a value that has no labels.
pub open spec fn plain_line(m: &Metric, value: u128) -> Seq<char> {
    m.name@ + " "@ + decimal(value as nat) + "\n"@
}

/// The line of a value under the labels `labels`.
pub open spec fn labelled_line(m: &Metric, labels: Seq<char>, value: u128) -> Seq<char> {
    m.name@ + "{"@ + labels + "} "@ + decimal(value as nat) + "\n"@
}

/// One labelled line for each of `inners`, in order.
pub open spec fn entry_lines(m: &Metric, labels: Seq<char>, inners: Seq<Inner>) -> Seq<char>
    decreases inners.len(),
{
    if inners.len() == 0 {
        seq![]
    } else {
        entry_lines(m, labels, inners.drop_last()) + labelled_line(m, labels, inners.last().value)
    }
}

/// The value lines of the entries from the `from`-th on; an entry without
/// label values writes its first value alone and ends the text.
pub open spec fn values_text(m: &Metric, from: nat) -> Seq<char>
    decreases m.inner@.len() - from,
{
    if from >= m.inner@.len() {
        seq![]
    } else if m.key(from as int).len() == 0 {
        plain_line(m, m.inner@[from as int].1@[0].value)
    } else {
        entry_lines(m, joined(label_pairs(strs(m.label_names@), m.key(from as int))), m.inner@[from as int].1@)
            + values_text(m, from + 1)
    }
}

/// The exposition text of a metric: nothing while it has no values, else its
/// header and its value lines.
pub open spec fn metric_text(m: &Metric) -> Seq<char> {
    if m.inner@.len() == 0 {
        seq![]
    } else {
        header_text(m) + values_text(m, 0)
    }
}

impl Metric {
    /// The labels of the entry with label values `key`, as they stand between braces.
    fn labels_string(&self, key: &Vec<String>) -> (res: String)
        ensures
            res@ == joined(label_pairs(strs(self.label_names@), strs(key@))),
    {
        let n: usize = if self.label_names.len() <= key.len() { self.label_names.len() } else { key.len() };
        let ghost items = label_pairs(strs(self.label_names@), strs(key@));
        let mut s = String::new();
        let mut i: usize = 0;
        while i < n
            invariant
                n == items.len(),
                n <= self.label_names@.len(),
                n <= key@.len(),
                items == label_pairs(strs(self.label_names@), strs(key@)),
                i <= n,
                s@ == joined(items.take(i as int)),
            decreases n - i,
        {
            let ghost before = s@;
            if i > 0 {
                s.append(",");
            }
            s.append(self.label_names[i].as_str());
            s.append("=\"");
            s.append(key[i].as_str());
            s.append("\"");
            proof {
                let t = items.take(i + 1);
                assert(t.drop_last() =~= items.take(i as int));
                assert(t.last() == items[i as int]);
                assert(items[i as int] == label_pair(self.label_names@[i as int]@, key@[i as int]@));
                if i == 0 {
                    assert(s@ =~= items[0]);
                } else {
                    assert(s@ =~= before + ","@ + items[i as int]);
                }
            }
            i = i + 1;
        }
        assert(items.take(n as int) =~= items);
        s
    }

    /// Writes the two header lines.
    fn encode_header(&self, w: &mut String)
        ensures
            final(w)@ == old(w)@ + header_text(self),
    {
        w.append("# HELP ");
        w.append(self.name.as_str());
        w.append(" ");
        w.append(self.help.as_str());
        w.append("\n");
        w.append("# TYPE ");
        w.append(self.name.as_str());
        w.append(" ");
        w.append(self.typ.as_str());
        w.append("\n");
        assert(w@ =~= old(w)@ + header_text(self));
    }

    /// Writes the value lines, entry after entry.
    fn encode_value(&self, w: &mut String)
        requires
            self.wf(),
        ensures
            final(w)@ == old(w)@ + values_text(self, 0),
    {
        let ghost w0 = w@;
        let mut i: usize = 0;
        while i < self.inner.len()
            invariant
                self.wf(),
                w0 == old(w)@,
                i <= self.inner@.len(),
                w0 + values_text(self, 0) == w@ + values_text(self, i as nat),
            decreases self.inner@.len() - i,
        {
            let ghost wi = w@;
            let entry = &self.inner[i];
            if entry.0.len() == 0 {
                assert(self.key(i as int).len() == 0);
                w.append(self.name.as_str());
                w.append(" ");
                let v = decimal_string(entry.1[0].value);
                w.append(v.as_str());
                w.append("\n");
                assert(w@ =~= wi + values_text(self, i as nat));
                assert(w@ =~= w0 + values_text(self, 0));
                return;
            }
            assert(self.key(i as int).len() != 0);
            let labels = self.labels_string(&entry.0);
            let ghost lines_all = entry_lines(self, labels@, entry.1@);
            let mut j: usize = 0;
            while j < entry.1.len()
                invariant
                    entry == self.inner@[i as int],
                    j <= entry.1@.len(),
                    w@ == wi + entry_lines(self, labels@, entry.1@.take(j as int)),
                decreases entry.1@.len() - j,
            {
                let ghost wj = w@;
                w.append(self.name.as_str());
                w.append("{");
                w.append(labels.as_str());
                w.append("} ");
                let v = decimal_string(entry.1[j].value);
                w.append(v.as_str());
                w.append("\n");
                proof {
                    let t = entry.1@.take(j + 1);
                    assert(t.drop_last() =~= entry.1@.take(j as int));
                    assert(t.last() == entry.1@[j as int]);
                    assert(w@ =~= wj + labelled_line(self, labels@, entry.1@[j as int].value));
                }
                j = j + 1;
            }
            proof {
                assert(entry.1@.take(entry.1@.len() as int) =~= entry.1@);
                assert(values_text(self, i as nat) == lines_all + values_text(self, (i + 1) as nat));
                assert(wi + values_text(self, i as nat) =~= w@ + values_text(self, (i + 1) as nat));
            }
            i = i + 1;
        }
    }

    /// Writes the metric's exposition text: nothing while it has no values.
    pub fn encode(&self, w: &mut String)
        requires
            self.wf(),
        ensures
            final(w)@ == old(w)@ + metric_text(self),
    {
        if self.inner.len() == 0 {
            assert(old(w)@ + metric_text(self) =~= old(w)@);
            return;
        }
        self.encode_header(w);
        self.encode_value(w);
        assert(w@ =~= old(w)@ + metric_text(self));
    }
}

impl Default for Inner {
    fn default() -> (res: Self)
        ensures
            res.value == 0,
            res.label_values@.len() == 0,
    {
        Inner { value: 0, label_values: Vec::new() }
    }
}

impl Default for Metric {
    fn default() -> (res: Self)
        ensures
            res.name@.len() == 0,
            res.help@.len() == 0,
            res.typ@.len() == 0,
            res.label_names@.len() == 0,
            res.inner@.len() == 0,
            res.wf(),
    {
        Metric {
            name: String::new(),
            help: String::new(),
            typ: String::new(),
            label_names: Vec::new(),
            inner: Vec::new(),
        }
    }
}

/// The metrics that the canister keeps.
#[allow(non_snake_case)]
pub struct Metrics {
    pub ACTIVE_SUBSCRIPTIONS: Metric,
    pub RPC_OUTCALLS: Metric,
    pub SUCCESSFUL_RPC_OUTCALLS: Metric,
    pub SYBIL_OUTCALLS: Metric,
    pub SUCCESSFUL_SYBIL_OUTCALLS: Metric,
    pub CYCLES: Metric,
}

/// The exposition text of all metrics, in their fixed order.
pub open spec fn metrics_text(m: &Metrics) -> Seq<char> {
    metric_text(&m.ACTIVE_SUBSCRIPTIONS) + metric_text(&m.RPC_OUTCALLS) + metric_text(&m.SUCCESSFUL_RPC_OUTCALLS)
        + metric_text(&m.SYBIL_OUTCALLS) + metric_text(&m.SUCCESSFUL_SYBIL_OUTCALLS) + metric_text(&m.CYCLES)
}

impl Metrics {
    pub open spec fn wf(&self) -> bool {
        &&& self.ACTIVE_SUBSCRIPTIONS.wf()
        &&& self.RPC_OUTCALLS.wf()
        &&& self.SUCCESSFUL_RPC_OUTCALLS.wf()
        &&& self.SYBIL_OUTCALLS.wf()
        &&& self.SUCCESSFUL_SYBIL_OUTCALLS.wf()
        &&& self.CYCLES.wf()
    }

    /// Writes the exposition text of every metric, one after the other.
    pub fn encode(&self, w: &mut String)
        requires
            self.wf(),
        ensures
            final(w)@ == old(w)@ + metrics_text(self),
    {
        self.ACTIVE_SUBSCRIPTIONS.encode(w);
        self.RPC_OUTCALLS.encode(w);
        self.SUCCESSFUL_RPC_OUTCALLS.encode(w);
        self.SYBIL_OUTCALLS.encode(w);
        self.SUCCESSFUL_SYBIL_OUTCALLS.encode(w);
        self.CYCLES.encode(w);
        assert(w@ =~= old(w)@ + metrics_text(self));
    }
}

impl Default for Metrics {
    fn default() -> (res: Self)
        ensures
            res.wf(),
            metrics_text(&res).len() == 0,
    {
        Metrics {
            ACTIVE_SUBSCRIPTIONS: Metric::default(),
            RPC_OUTCALLS: Metric::default(),
            SUCCESSFUL_RPC_OUTCALLS: Metric::default(),
            SYBIL_OUTCALLS: Metric::default(),
            SUCCESSFUL_SYBIL_OUTCALLS: Metric::default(),
            CYCLES: Metric::default(),
        }
    }
}

/// The exposition text of all metrics, as UTF-8 bytes.
pub fn gather_metrics(metrics: &Metrics) -> (res: Vec<u8>)
    requires
        metrics.wf(),
    ensures
        res@ == encode_utf8(metrics_text(metrics)),
{
    let mut buffer = String::new();
    metrics.encode(&mut buffer);
    assert(buffer@ =~= metrics_text(metrics));
    buffer.as_str().as_bytes_vec()
}

/// A metric with no values yet, named `name`, of type `typ`, with the labels
/// `labels`.
pub open spec fn fresh_metric(m: Metric, name: Seq<char>, typ: Seq<char>, labels: Seq<Seq<char>>) -> bool {
    &&& m.name@ == name
    &&& m.typ@ == typ
    &&& strs(m.label_names@) == labels
    &&& m.inner@.len() == 0
}

/// The metrics the service keeps, before anything is counted: the active
/// subscriptions by chain, the RPC and Sybil calls (made and answered) by
/// method, and the cycles.
pub fn service_metrics() -> (res: Metrics)
    ensures
        res.wf(),
        fresh_metric(res.ACTIVE_SUBSCRIPTIONS, "active_subscriptions"@, "gauge"@, seq!["chain"@]),
        fresh_metric(res.RPC_OUTCALLS, "rpc_outcalls"@, "counter"@, seq!["method"@]),
        fresh_metric(res.SUCCESSFUL_RPC_OUTCALLS, "sucessfull_rpc_outcalls"@, "counter"@, seq!["method"@]),
        fresh_metric(res.SYBIL_OUTCALLS, "sybil_outcalls"@, "counter"@, seq!["method"@]),
        fresh_metric(res.SUCCESSFUL_SYBIL_OUTCALLS, "successful_sybil_outcalls"@, "counter"@, seq!["method"@]),
        fresh_metric(res.CYCLES, "cycles"@, "gauge"@, seq![]),
{
    let chain: [&str; 1] = ["chain"];
    let method: [&str; 1] = ["method"];
    let none: [&str; 0] = [];
    proof {
        assert(strs_of(chain@) =~= seq!["chain"@]);
        assert(strs_of(method@) =~= seq!["method"@]);
        assert(strs_of(none@) =~= Seq::<Seq<char>>::empty());
    }
    Metrics {
        ACTIVE_SUBSCRIPTIONS: Metric::new("active_subscriptions", "Number of active subscriptions", "gauge", chain.as_slice()),
        RPC_OUTCALLS: Metric::new("rpc_outcalls", "Number of rpc outcalls", "counter", method.as_slice()),
        SUCCESSFUL_RPC_OUTCALLS: Metric::new(
            "sucessfull_rpc_outcalls",
            "Number of successfully returned rpc outcalls",
            "counter",
            method.as_slice(),
        ),
        SYBIL_OUTCALLS: Metric::new("sybil_outcalls", "Number of sybil outcalls", "counter", method.as_slice()),
        SUCCESSFUL_SYBIL_OUTCALLS: Metric::new(
            "successful_sybil_outcalls",
            "Number of successfully returned sybil outcalls. Note that this metric is about ic communication with the sybil canister. Meaning if sybil returns error, this metric will not be incremented. If ic returns error while quering sybil canister, this metric will be incremented.",
            "counter",
            method.as_slice(),
        ),
        CYCLES: Metric::new("cycles", "Number of canister's cycles", "gauge", none.as_slice()),
    }
}

} // verus!
