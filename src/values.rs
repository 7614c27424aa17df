use vstd::prelude::*;

verus! {

broadcast use vstd::std_specs::vec::axiom_vec_index_decreases;

/// A parsed document node.
#[derive(Debug, PartialEq)]
pub enum Value {
    StringValue(String),
    IntegerValue(i32),
    /// The text of a decimal literal (digits with one `.`).
    FloatValue(String),
    BoolValue(bool),
    ArrayValue(Vec<Value>),
    ObjectValue(Json),
    NullValue,
}

/// The members of an object: a mapping from keys to values, keys unique.
#[derive(Debug, PartialEq)]
pub struct Json {
    entries: Vec<(String, Value)>,
}

/// The mathematical model of a [`Value`].
pub enum ValueView {
    Str(Seq<char>),
    Int(i32),
    Float(Seq<char>),
    Bool(bool),
    Array(Seq<ValueView>),
    /// Members in the order in which each key was first inserted.
    Object(Seq<(Seq<char>, ValueView)>),
    Null,
}

impl Value {
    pub open spec fn view(&self) -> ValueView
        decreases self,
    {
        match self {
            Value::StringValue(s) => ValueView::Str(s@),
            Value::IntegerValue(n) => ValueView::Int(*n),
            Value::FloatValue(s) => ValueView::Float(s@),
            Value::BoolValue(b) => ValueView::Bool(*b),
            Value::ArrayValue(items) => ValueView::Array(
                Seq::new(items.len() as nat, |i: int| if 0 <= i < items.len() { items[i].view() } else { ValueView::Null }),
            ),
            Value::ObjectValue(j) => ValueView::Object(j.view()),
            Value::NullValue => ValueView::Null,
        }
    }
}

/// Index of the last member whose key is `k`, or -1 when there is none.
pub open spec fn key_index(ps: Seq<(Seq<char>, ValueView)>, k: Seq<char>) -> int
    decreases ps.len(),
{
    if ps.len() == 0 {
        -1
    } else if ps.last().0 == k {
        ps.len() - 1
    } else {
        key_index(ps.drop_last(), k)
    }
}

/// Members after binding `k` to `v`: an existing key keeps its place and takes
/// the new value (last write wins); a new key goes at the end.
pub open spec fn insert_member(
    ps: Seq<(Seq<char>, ValueView)>,
    k: Seq<char>,
    v: ValueView,
) -> Seq<(Seq<char>, ValueView)> {
    if key_index(ps, k) >= 0 {
        ps.update(key_index(ps, k), (k, v))
    } else {
        ps.push((k, v))
    }
}

/// The value bound to `k`, if any.
pub open spec fn member_value(ps: Seq<(Seq<char>, ValueView)>, k: Seq<char>) -> Option<ValueView> {
    if key_index(ps, k) >= 0 {
        Some(ps[key_index(ps, k)].1)
    } else {
        None
    }
}

pub open spec fn keys_unique(ps: Seq<(Seq<char>, ValueView)>) -> bool {
    forall|i: int, j: int| 0 <= i < j < ps.len() ==> ps[i].0 != ps[j].0
}

pub proof fn lemma_key_index_bounds(ps: Seq<(Seq<char>, ValueView)>, k: Seq<char>)
    ensures
        -1 <= key_index(ps, k) < ps.len(),
        key_index(ps, k) >= 0 ==> ps[key_index(ps, k)].0 == k,
        key_index(ps, k) < 0 ==> forall|i: int| 0 <= i < ps.len() ==> ps[i].0 != k,
    decreases ps.len(),
{
    if ps.len() > 0 && ps.last().0 != k {
        lemma_key_index_bounds(ps.drop_last(), k);
        assert forall|i: int| 0 <= i < ps.len() - 1 implies ps[i] == ps.drop_last()[i] by {}
    }
}

/// Binding a key keeps the keys unique.
pub proof fn lemma_insert_keeps_keys_unique(
    ps: Seq<(Seq<char>, ValueView)>,
    k: Seq<char>,
    v: ValueView,
)
    requires
        keys_unique(ps),
    ensures
        keys_unique(insert_member(ps, k, v)),
        member_value(insert_member(ps, k, v), k) == Some(v),
{
    lemma_key_index_bounds(ps, k);
    let qs = insert_member(ps, k, v);
    lemma_key_index_bounds(qs, k);
    if key_index(qs, k) != key_index(ps, k) && key_index(ps, k) >= 0 {
        assert(qs[key_index(ps, k)].0 == k);
    }
    if key_index(ps, k) < 0 && key_index(qs, k) != ps.len() {
        assert(qs[ps.len() as int].0 == k);
    }
}

/// Every object in `v`, however deep, has unique keys.
pub open spec fn well_formed(v: ValueView) -> bool
    decreases v,
{
    match v {
        ValueView::Array(items) => forall|k: int|
            0 <= k < items.len() ==> well_formed(#[trigger] items[k]),
        ValueView::Object(ps) => keys_unique(ps) && forall|k: int|
            0 <= k < ps.len() ==> well_formed(#[trigger] ps[k].1),
        _ => true,
    }
}

/// Binding a key to a well-formed value keeps every member's value well-formed.
pub proof fn lemma_insert_keeps_values_well_formed(
    ps: Seq<(Seq<char>, ValueView)>,
    k: Seq<char>,
    v: ValueView,
)
    requires
        well_formed(v),
        forall|m: int| 0 <= m < ps.len() ==> well_formed(#[trigger] ps[m].1),
    ensures
        forall|m: int|
            0 <= m < insert_member(ps, k, v).len() ==> well_formed(
                #[trigger] insert_member(ps, k, v)[m].1,
            ),
{
    lemma_key_index_bounds(ps, k);
}

proof fn lemma_rebind_keeps_keys_unique(ps: Seq<(Seq<char>, ValueView)>, i: int)
    requires
        keys_unique(ps),
        0 <= i < ps.len(),
    ensures
        forall|v: ValueView| keys_unique(#[trigger] ps.update(i, (ps[i].0, v))),
{
    assert forall|v: ValueView| keys_unique(#[trigger] ps.update(i, (ps[i].0, v))) by {
        let qs = ps.update(i, (ps[i].0, v));
        assert forall|a: int, b: int| 0 <= a < b < qs.len() implies qs[a].0 != qs[b].0 by {
            assert(qs[a].0 == ps[a].0 && qs[b].0 == ps[b].0);
        }
    }
}

impl Json {
    pub closed spec fn view(&self) -> Seq<(Seq<char>, ValueView)>
        decreases self,
    {
        Seq::new(
            self.entries.len() as nat,
            |i: int|
                if 0 <= i < self.entries.len() {
                    (self.entries[i].0@, self.entries[i].1.view())
                } else {
                    (Seq::empty(), ValueView::Null)
                },
        )
    }

    /// An object without members.
    pub fn new() -> (r: Json)
        ensures
            r@ == Seq::<(Seq<char>, ValueView)>::empty(),
            r.wf(),
    {
        let r = Json { entries: Vec::new() };
        assert(r@ =~= Seq::<(Seq<char>, ValueView)>::empty());
        r
    }

    /// No key is bound twice. Every operation keeps this.
    pub open spec fn wf(&self) -> bool {
        keys_unique(self@)
    }

    /// The number of members.
    pub fn len(&self) -> (r: usize)
        ensures
            r == self@.len(),
    {
        self.entries.len()
    }

    /// The members, in the order in which each key was first inserted.
    pub fn members(&self) -> (r: &Vec<(String, Value)>)
        ensures
            r@.len() == self@.len(),
            forall|i: int| 0 <= i < r@.len() ==> (#[trigger] r@[i].0@, r@[i].1.view()) == self@[i],
    {
        &self.entries
    }

    /// Where `key` stands among the members.
    fn find(&self, key: &String) -> (r: Option<usize>)
        ensures
            match r {
                Some(i) => i == key_index(self@, key@) && i < self.entries.len(),
                None => key_index(self@, key@) < 0,
            },
    {
        let mut i: usize = self.entries.len();
        assert(self@.take(i as int) =~= self@);
        while i > 0
            invariant
                i <= self.entries.len(),
                self@.len() == self.entries.len(),
                key_index(self@, key@) == key_index(self@.take(i as int), key@),
            decreases i,
        {
            i = i - 1;
            assert(self@.take(i + 1).drop_last() =~= self@.take(i as int));
            if self.entries[i].0 == *key {
                return Some(i);
            }
        }
        None
    }

    /// Binds `key` to `value`; an existing binding of `key` is replaced.
    pub fn insert(&mut self, key: String, value: Value)
        requires
            old(self).wf(),
        ensures
            final(self).wf(),
            final(self)@ == insert_member(old(self)@, key@, value.view()),
    {
        proof {
            lemma_key_index_bounds(self@, key@);
            lemma_insert_keeps_keys_unique(self@, key@, value.view());
        }
        let ghost pre = self@;
        let ghost kv = (key@, value.view());
        match self.find(&key) {
            Some(i) => {
                self.entries[i] = (key, value);
                assert(self@ =~= pre.update(i as int, kv));
            },
            None => {
                self.entries.push((key, value));
                assert(self@ =~= pre.push(kv));
            },
        }
    }

    /// The value bound to `key`, if any.
    pub fn get(&self, key: &str) -> (r: Option<&Value>)
        ensures
            match r {
                Some(v) => member_value(self@, key@) == Some(v.view()),
                None => member_value(self@, key@) is None,
            },
    {
        let k = key.to_owned();
        match self.find(&k) {
            Some(i) => {
                assert(self@[i as int].1 == self.entries[i as int].1.view());
                Some(&self.entries[i].1)
            },
            None => None,
        }
    }

    /// The value bound to `key`, if any, for changing in place.
    pub fn get_mut(&mut self, key: &str) -> (r: Option<&mut Value>)
        requires
            old(self).wf(),
        ensures
            r is None <==> member_value(old(self)@, key@) is None,
            r is None ==> final(self)@ == old(self)@,
            r matches Some(v) ==> member_value(old(self)@, key@) == Some(v.view()),
            r matches Some(v) ==> {
                &&& final(self)@ =~= old(self)@.update(
                    key_index(old(self)@, key@),
                    (key@, final(v).view()),
                )
                &&& final(self).wf()
            },
            r is None ==> final(self).wf(),
    {
        let k = key.to_owned();
        match self.find(&k) {
            Some(i) => {
                proof {
                    lemma_key_index_bounds(self@, key@);
                    lemma_rebind_keeps_keys_unique(self@, i as int);
                }
                assert(self@[i as int] == (self.entries[i as int].0@, self.entries[i as int].1.view()));
                let entry = &mut self.entries[i];
                Some(&mut entry.1)
            },
            None => None,
        }
    }
}

} // verus!
