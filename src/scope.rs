use crate::obj::{value_wf, Value, ValueObj};
use vstd::prelude::*;

verus! {

/// What `declare` does to a frame: it binds a name that the frame does not
/// hold yet, and otherwise fails and leaves the frame as it was.
pub open spec fn declared(m: Map<Seq<char>, Value>, name: Seq<char>, v: Value) -> (bool, Map<Seq<char>, Value>) {
    if m.contains_key(name) {
        (false, m)
    } else {
        (true, m.insert(name, v))
    }
}

/// What `set` does to a frame: it rebinds a name that the frame holds, and
/// otherwise fails and leaves the frame as it was.
pub open spec fn assigned(m: Map<Seq<char>, Value>, name: Seq<char>, v: Value) -> (bool, Map<Seq<char>, Value>) {
    if m.contains_key(name) {
        (true, m.insert(name, v))
    } else {
        (false, m)
    }
}

/// A second declaration of a name in one frame fails, and the value of the
/// first stays.
pub proof fn lemma_declare_once(m: Map<Seq<char>, Value>, name: Seq<char>, first: Value, second: Value)
    requires
        !m.contains_key(name),
    ensures
        declared(m, name, first).0,
        !declared(declared(m, name, first).1, name, second).0,
        declared(declared(m, name, first).1, name, second).1 == declared(m, name, first).1,
        declared(declared(m, name, first).1, name, second).1[name] == first,
{
}

/// One frame of names and their values.
pub struct Scope {
    names: Vec<String>,
    values: Vec<ValueObj>,
}

impl Scope {
    pub closed spec fn index_of(&self, name: Seq<char>) -> int {
        choose|i: int| 0 <= i < self.names.len() && self.names@[i]@ == name
    }

    pub closed spec fn holds(&self, name: Seq<char>) -> bool {
        exists|i: int| 0 <= i < self.names.len() && self.names@[i]@ == name
    }

    /// The names of the frame and their values.
    pub closed spec fn view(&self) -> Map<Seq<char>, Value> {
        Map::new(|k: Seq<char>| self.holds(k), |k: Seq<char>| self.values@[self.index_of(k)]@)
    }

    pub closed spec fn wf(&self) -> bool {
        &&& self.names.len() == self.values.len()
        &&& forall|i: int, j: int|
            0 <= i < self.names.len() && 0 <= j < self.names.len() && i != j ==> #[trigger] self.names@[i]@
                != #[trigger] self.names@[j]@
        &&& forall|i: int| 0 <= i < self.values.len() ==> value_wf(#[trigger] self.values@[i])
    }

    proof fn lemma_index_of(&self, i: int)
        requires
            self.wf(),
            0 <= i < self.names.len(),
        ensures
            self.holds(self.names@[i]@),
            self.index_of(self.names@[i]@) == i,
    {
        let k = self.names@[i]@;
        assert(self.holds(k));
        let j = self.index_of(k);
        if j != i {
            assert(self.names@[j]@ != self.names@[i]@);
        }
    }

    /// The frame of global names; it starts empty.
    pub fn global() -> (r: Self)
        ensures
            r.wf(),
            r.view() == Map::<Seq<char>, Value>::empty(),
    {
        Self::new()
    }

    /// An empty frame.
    pub fn new() -> (r: Self)
        ensures
            r.wf(),
            r.view() == Map::<Seq<char>, Value>::empty(),
    {
        let r = Scope { names: Vec::new(), values: Vec::new() };
        assert(r.view() =~= Map::<Seq<char>, Value>::empty());
        r
    }

    fn find(&self, name: &String) -> (r: Option<usize>)
        requires
            self.wf(),
        ensures
            match r {
                Some(i) => i < self.names.len() && self.names@[i as int]@ == name@,
                None => !self.holds(name@),
            },
    {
        let mut i: usize = 0;
        while i < self.names.len()
            invariant
                i <= self.names.len(),
                forall|j: int| 0 <= j < i ==> #[trigger] self.names@[j]@ != name@,
            decreases self.names.len() - i,
        {
            if self.names[i] == *name {
                return Some(i);
            }
            i = i + 1;
        }
        None
    }

    /// Binds `name` to `value` if this frame does not hold `name` yet;
    /// otherwise fails and leaves the frame as it was.
    pub fn declare(&mut self, name: String, value: ValueObj) -> (r: bool)
        requires
            old(self).wf(),
            value_wf(value),
        ensures
            final(self).wf(),
            (r, final(self).view()) == declared(old(self).view(), name@, value@),
    {
        match self.find(&name) {
            Some(i) => {
                proof {
                    self.lemma_index_of(i as int);
                }
                false
            },
            None => {
                let ghost old_self = *self;
                let ghost k = name@;
                let ghost v = value@;
                self.names.push(name);
                self.values.push(value);
                proof {
                    let n = old_self.names.len() as int;
                    assert forall|i: int, j: int|
                        0 <= i < self.names.len() && 0 <= j < self.names.len() && i != j implies #[trigger] self.names@[i]@
                            != #[trigger] self.names@[j]@ by {
                        if i < n && j < n {
                            assert(old_self.names@[i] == self.names@[i]);
                            assert(old_self.names@[j] == self.names@[j]);
                        } else if i == n {
                            assert(old_self.names@[j] == self.names@[j]);
                        } else {
                            assert(old_self.names@[i] == self.names@[i]);
                        }
                    }
                    assert forall|i: int| 0 <= i < self.values.len() implies value_wf(
                        #[trigger] self.values@[i],
                    ) by {
                        if i < n {
                            assert(old_self.values@[i] == self.values@[i]);
                        }
                    }
                    assert forall|key: Seq<char>| #[trigger]
                        self.view().contains_key(key) == old_self.view().insert(k, v).contains_key(
                            key,
                        ) by {
                        if self.holds(key) && key != k {
                            let j = choose|j: int| 0 <= j < self.names.len() && self.names@[j]@ == key;
                            assert(old_self.names@[j] == self.names@[j]);
                            assert(old_self.holds(key));
                        }
                        if old_self.holds(key) {
                            let j = choose|j: int| 0 <= j < old_self.names.len() && old_self.names@[j]@ == key;
                            assert(old_self.names@[j] == self.names@[j]);
                        }
                        if key == k {
                            assert(self.names@[n]@ == k);
                        }
                    }
                    assert forall|key: Seq<char>| #[trigger] self.view().contains_key(key) implies self.view()[key]
                        == old_self.view().insert(k, v)[key] by {
                        if key == k {
                            self.lemma_index_of(n);
                        } else {
                            let j = choose|j: int| 0 <= j < self.names.len() && self.names@[j]@ == key;
                            self.lemma_index_of(j);
                            assert(old_self.names@[j] == self.names@[j]);
                            old_self.lemma_index_of(j);
                            assert(old_self.values@[j] == self.values@[j]);
                        }
                    }
                    assert(self.view() =~= old_self.view().insert(k, v));
                }
                true
            },
        }
    }

    /// The value bound to `name` in this frame, if any.
    pub fn get(&self, name: &String) -> (r: Option<&ValueObj>)
        requires
            self.wf(),
        ensures
            match r {
                Some(v) => self.view().contains_key(name@) && v@ == self.view()[name@] && value_wf(*v),
                None => !self.view().contains_key(name@),
            },
    {
        match self.find(name) {
            Some(i) => {
                proof {
                    self.lemma_index_of(i as int);
                }
                Some(&self.values[i])
            },
            None => None,
        }
    }

    /// Rebinds `name` to `value` if this frame holds `name`; otherwise fails
    /// and leaves the frame as it was.
    pub fn set(&mut self, name: String, value: ValueObj) -> (r: bool)
        requires
            old(self).wf(),
            value_wf(value),
        ensures
            final(self).wf(),
            (r, final(self).view()) == assigned(old(self).view(), name@, value@),
    {
        match self.find(&name) {
            None => false,
            Some(i) => {
                let ghost old_self = *self;
                let ghost k = name@;
                let ghost v = value@;
                proof {
                    old_self.lemma_index_of(i as int);
                }
                self.values.set(i, value);
                proof {
                    assert(self.names@ == old_self.names@);
                    assert forall|key: Seq<char>| #[trigger] self.view().contains_key(key)
                        == old_self.view().insert(k, v).contains_key(key) by {
                        assert(self.holds(key) == old_self.holds(key));
                    }
                    assert forall|key: Seq<char>| #[trigger] self.view().contains_key(key) implies self.view()[key]
                        == old_self.view().insert(k, v)[key] by {
                        let j = choose|j: int| 0 <= j < self.names.len() && self.names@[j]@ == key;
                        self.lemma_index_of(j);
                        old_self.lemma_index_of(j);
                    }
                    assert(self.view() =~= old_self.view().insert(k, v));
                }
                true
            },
        }
    }
}

} // verus!
