use vstd::prelude::*;

verus! {

/// A function that the host offers to programs, with the index that calls refer to it by.
pub struct ForeignFunction<F> {
    pub name: String,
    pub index: u8,
    pub function: F,
}

/// A value that the host offers to programs under a name.
pub struct ForeignValue<G> {
    pub name: String,
    pub value: G,
}

/// What a host offers to the programs it runs: functions, each with an index in the order
/// they were added, and values, each under a name.
pub struct Context<F, G> {
    functions: Vec<ForeignFunction<F>>,
    function_count: u8,
    values: Vec<ForeignValue<G>>,
}

/// Whether no name occurs twice among the functions.
pub open spec fn distinct_function_names<F>(fs: Seq<ForeignFunction<F>>) -> bool {
    forall|i: int, j: int| 0 <= i < j < fs.len() ==> fs[i].name@ != fs[j].name@
}

/// Whether no name occurs twice among the values.
pub open spec fn distinct_value_names<G>(vs: Seq<ForeignValue<G>>) -> bool {
    forall|i: int, j: int| 0 <= i < j < vs.len() ==> vs[i].name@ != vs[j].name@
}

impl<F, G> Context<F, G> {
    /// The functions by name: each with its index and the function.
    pub closed spec fn functions(&self) -> Map<Seq<char>, (u8, F)> {
        Map::new(
            |n: Seq<char>| exists|i: int| 0 <= i < self.functions@.len() && #[trigger] self.functions@[i].name@ == n,
            |n: Seq<char>| {
                let i = choose|i: int| 0 <= i < self.functions@.len() && #[trigger] self.functions@[i].name@ == n;
                (self.functions@[i].index, self.functions@[i].function)
            },
        )
    }

    /// The values by name.
    pub closed spec fn values(&self) -> Map<Seq<char>, G> {
        Map::new(
            |n: Seq<char>| exists|i: int| 0 <= i < self.values@.len() && #[trigger] self.values@[i].name@ == n,
            |n: Seq<char>| {
                let i = choose|i: int| 0 <= i < self.values@.len() && #[trigger] self.values@[i].name@ == n;
                self.values@[i].value
            },
        )
    }

    /// How many functions were added, counting those added again under a name in use.
    pub closed spec fn function_count(&self) -> u8 {
        self.function_count
    }

    /// The context's invariant: names are unique, and each function's index is below the count
    /// and differs from every other function's.
    pub closed spec fn wf(&self) -> bool {
        &&& distinct_function_names(self.functions@)
        &&& distinct_value_names(self.values@)
        &&& forall|i: int| 0 <= i < self.functions@.len() ==> #[trigger] self.functions@[i].index < self.function_count
        &&& forall|i: int, j: int|
            0 <= i < j < self.functions@.len() ==> self.functions@[i].index != self.functions@[j].index
    }

    /// An empty context.
    pub fn new() -> (r: Self)
        ensures
            r.wf(),
            r.functions() == Map::<Seq<char>, (u8, F)>::empty(),
            r.values() == Map::<Seq<char>, G>::empty(),
            r.function_count() == 0,
    {
        let r = Self { functions: Vec::new(), function_count: 0, values: Vec::new() };
        proof {
            assert(r.functions() =~= Map::<Seq<char>, (u8, F)>::empty());
            assert(r.values() =~= Map::<Seq<char>, G>::empty());
        }
        r
    }

    proof fn lemma_function_at(&self, i: int)
        requires
            self.wf(),
            0 <= i < self.functions@.len(),
        ensures
            self.functions().contains_key(self.functions@[i].name@),
            self.functions()[self.functions@[i].name@] == (
                self.functions@[i].index,
                self.functions@[i].function,
            ),
    {
        let n = self.functions@[i].name@;
        assert(self.functions().contains_key(n));
        let j = choose|j: int| 0 <= j < self.functions@.len() && #[trigger] self.functions@[j].name@ == n;
        assert(j == i);
    }

    proof fn lemma_value_at(&self, i: int)
        requires
            self.wf(),
            0 <= i < self.values@.len(),
        ensures
            self.values().contains_key(self.values@[i].name@),
            self.values()[self.values@[i].name@] == self.values@[i].value,
    {
        let n = self.values@[i].name@;
        assert(self.values().contains_key(n));
        let j = choose|j: int| 0 <= j < self.values@.len() && #[trigger] self.values@[j].name@ == n;
        assert(j == i);
    }

    fn find_function(&self, name: &String) -> (r: Option<usize>)
        ensures
            match r {
                Some(i) => i < self.functions@.len() && self.functions@[i as int].name@ == name@,
                None => forall|i: int| 0 <= i < self.functions@.len() ==> #[trigger] self.functions@[i].name@ != name@,
            },
    {
        let mut i: usize = 0;
        while i < self.functions.len()
            invariant
                i <= self.functions@.len(),
                forall|j: int| 0 <= j < i ==> #[trigger] self.functions@[j].name@ != name@,
            decreases self.functions.len() - i,
        {
            if self.functions[i].name.eq(name) {
                return Some(i);
            }
            i += 1;
        }
        None
    }

    fn find_value(&self, name: &String) -> (r: Option<usize>)
        ensures
            match r {
                Some(i) => i < self.values@.len() && self.values@[i as int].name@ == name@,
                None => forall|i: int| 0 <= i < self.values@.len() ==> #[trigger] self.values@[i].name@ != name@,
            },
    {
        let mut i: usize = 0;
        while i < self.values.len()
            invariant
                i <= self.values@.len(),
                forall|j: int| 0 <= j < i ==> #[trigger] self.values@[j].name@ != name@,
            decreases self.values.len() - i,
        {
            if self.values[i].name.eq(name) {
                return Some(i);
            }
            i += 1;
        }
        None
    }

    /// Offers `value` under `name`, in place of any value offered under it before.
    pub fn add_value(&mut self, name: String, value: G)
        requires
            old(self).wf(),
        ensures
            final(self).wf(),
            final(self).values() == old(self).values().insert(name@, value),
            final(self).functions() == old(self).functions(),
            final(self).function_count() == old(self).function_count(),
    {
        let ghost n = name@;
        let ghost mut pos: int = 0;
        match self.find_value(&name) {
            Some(i) => {
                self.values.set(i, ForeignValue { name, value });
                proof {
                    pos = i as int;
                }
            },
            None => {
                self.values.push(ForeignValue { name, value });
                proof {
                    pos = self.values@.len() - 1;
                }
            },
        }
        proof {
            assert(self.functions() =~= old(self).functions());
            assert forall|key: Seq<char>| #[trigger] self.values().contains_key(key)
                <==> old(self).values().insert(n, value).contains_key(key) by {
                if self.values().contains_key(key) {
                    let j = choose|j: int| 0 <= j < self.values@.len() && #[trigger] self.values@[j].name@ == key;
                    if key != n {
                        assert(old(self).values@[j].name@ == key);
                    }
                }
                if old(self).values().contains_key(key) && key != n {
                    let j = choose|j: int| 0 <= j < old(self).values@.len() && #[trigger] old(self).values@[j].name@ == key;
                    assert(self.values@[j].name@ == key);
                }
                if key == n {
                    assert(self.values@[pos].name@ == key);
                }
            }
            assert forall|key: Seq<char>| #[trigger] self.values().contains_key(key) implies self.values()[key]
                == old(self).values().insert(n, value)[key] by {
                let j = choose|j: int| 0 <= j < self.values@.len() && #[trigger] self.values@[j].name@ == key;
                self.lemma_value_at(j);
                if key != n {
                    old(self).lemma_value_at(j);
                }
            }
            assert(self.values() =~= old(self).values().insert(n, value));
        }
    }

    /// Whether a value is offered under `name`.
    pub fn has_value(&self, name: &String) -> (r: bool)
        ensures
            r == self.values().contains_key(name@),
    {
        let found = self.find_value(name);
        found.is_some()
    }

    /// Offers `function` under `name`, in place of any function offered under it before, with
    /// the next index.
    pub fn add_function(&mut self, name: String, function: F)
        requires
            old(self).wf(),
            old(self).function_count() < 255,
        ensures
            final(self).wf(),
            final(self).functions() == old(self).functions().insert(
                name@,
                (old(self).function_count(), function),
            ),
            final(self).values() == old(self).values(),
            final(self).function_count() == old(self).function_count() + 1,
    {
        let ghost n = name@;
        let ghost f = function;
        let index = self.function_count;
        let ghost mut pos: int = 0;
        match self.find_function(&name) {
            Some(i) => {
                self.functions.set(i, ForeignFunction { name, index, function });
                proof {
                    pos = i as int;
                }
            },
            None => {
                self.functions.push(ForeignFunction { name, index, function });
                proof {
                    pos = self.functions@.len() - 1;
                }
            },
        }
        self.function_count += 1;
        proof {
            assert(self.values() =~= old(self).values());
            assert forall|key: Seq<char>| #[trigger] self.functions().contains_key(key)
                <==> old(self).functions().insert(n, (index, f)).contains_key(key) by {
                if self.functions().contains_key(key) {
                    let j = choose|j: int| 0 <= j < self.functions@.len() && #[trigger] self.functions@[j].name@ == key;
                    if key != n {
                        assert(old(self).functions@[j].name@ == key);
                    }
                }
                if old(self).functions().contains_key(key) && key != n {
                    let j = choose|j: int| 0 <= j < old(self).functions@.len() && #[trigger] old(self).functions@[j].name@ == key;
                    assert(self.functions@[j].name@ == key);
                }
                if key == n {
                    assert(self.functions@[pos].name@ == key);
                }
            }
            assert forall|key: Seq<char>| #[trigger] self.functions().contains_key(key) implies self.functions()[key]
                == old(self).functions().insert(n, (index, f))[key] by {
                let j = choose|j: int| 0 <= j < self.functions@.len() && #[trigger] self.functions@[j].name@ == key;
                self.lemma_function_at(j);
                if key != n {
                    old(self).lemma_function_at(j);
                }
            }
            assert(self.functions() =~= old(self).functions().insert(n, (index, f)));
        }
    }

    /// Whether a function is offered under `name`.
    pub fn has_function(&self, name: &String) -> (r: bool)
        ensures
            r == self.functions().contains_key(name@),
    {
        let found = self.find_function(name);
        proof {
            if let Some(i) = found {
                assert(self.functions@[i as int].name@ == name@);
            }
        }
        found.is_some()
    }

    /// The index of the function offered under `name`.
    pub fn get_index(&self, name: &String) -> (r: u8)
        requires
            self.wf(),
            self.functions().contains_key(name@),
        ensures
            r == self.functions()[name@].0,
    {
        let i = self.find_function(name).unwrap();
        proof {
            self.lemma_function_at(i as int);
        }
        self.functions[i].index
    }

    /// The function offered under `name`, if any.
    pub fn lookup_function(&self, name: &String) -> (r: Option<&F>)
        requires
            self.wf(),
        ensures
            r is Some <==> self.functions().contains_key(name@),
            r is Some ==> *r.unwrap() == self.functions()[name@].1,
    {
        match self.find_function(name) {
            Some(i) => {
                proof {
                    self.lemma_function_at(i as int);
                }
                Some(&self.functions[i].function)
            },
            None => None,
        }
    }

    /// The value offered under `name`, if any.
    pub fn lookup_value(&self, name: &String) -> (r: Option<&G>)
        requires
            self.wf(),
        ensures
            r is Some <==> self.values().contains_key(name@),
            r is Some ==> *r.unwrap() == self.values()[name@],
    {
        match self.find_value(name) {
            Some(i) => {
                proof {
                    self.lemma_value_at(i as int);
                }
                Some(&self.values[i].value)
            },
            None => None,
        }
    }

    /// What the value offered under `name` gives when asked, or `absent` when no value is
    /// offered under it.
    pub fn get_value<V>(&self, name: &String, absent: V) -> (r: V) where G: Fn() -> V
        requires
            self.wf(),
            self.values().contains_key(name@) ==> call_requires(self.values()[name@], ()),
        ensures
            self.values().contains_key(name@) ==> call_ensures(self.values()[name@], (), r),
            !self.values().contains_key(name@) ==> r == absent,
    {
        match self.lookup_value(name) {
            Some(value) => value(),
            None => absent,
        }
    }

    /// What the function offered under `name` returns on `stack`, or `absent` when no
    /// function is offered under it.
    pub fn call_function<V>(&self, name: &String, stack: &Vec<V>, absent: V) -> (r: V) where
        F: Fn(&Vec<V>) -> V,
        requires
            self.wf(),
            self.functions().contains_key(name@) ==> call_requires(
                self.functions()[name@].1,
                (stack,),
            ),
        ensures
            self.functions().contains_key(name@) ==> call_ensures(
                self.functions()[name@].1,
                (stack,),
                r,
            ),
            !self.functions().contains_key(name@) ==> r == absent,
    {
        match self.lookup_function(name) {
            Some(function) => function(stack),
            None => absent,
        }
    }

    /// The names of the functions, each once.
    pub fn get_function_names(&self) -> (r: Vec<String>)
        requires
            self.wf(),
        ensures
            forall|i: int| 0 <= i < r@.len() ==> self.functions().contains_key(#[trigger] r@[i]@),
            forall|n: Seq<char>| #[trigger] self.functions().contains_key(n) ==> exists|i: int|
                0 <= i < r@.len() && #[trigger] r@[i]@ == n,
            forall|i: int, j: int| 0 <= i < j < r@.len() ==> r@[i]@ != r@[j]@,
    {
        let mut names: Vec<String> = Vec::new();
        let mut k: usize = 0;
        while k < self.functions.len()
            invariant
                self.wf(),
                k <= self.functions@.len(),
                names@.len() == k,
                forall|i: int| 0 <= i < k ==> #[trigger] names@[i]@ == self.functions@[i].name@,
            decreases self.functions.len() - k,
        {
            names.push(self.functions[k].name.clone());
            k += 1;
        }
        proof {
            assert forall|i: int| 0 <= i < names@.len() implies self.functions().contains_key(
                #[trigger] names@[i]@,
            ) by {
                self.lemma_function_at(i);
            }
            assert forall|n: Seq<char>| #[trigger] self.functions().contains_key(n) implies exists|i: int|
                0 <= i < names@.len() && #[trigger] names@[i]@ == n by {
                let j = choose|j: int| 0 <= j < self.functions@.len() && #[trigger] self.functions@[j].name@ == n;
                assert(names@[j]@ == n);
            }
        }
        names
    }

    /// The names of the values, each once.
    pub fn get_value_names(&self) -> (r: Vec<String>)
        requires
            self.wf(),
        ensures
            forall|i: int| 0 <= i < r@.len() ==> self.values().contains_key(#[trigger] r@[i]@),
            forall|n: Seq<char>| #[trigger] self.values().contains_key(n) ==> exists|i: int|
                0 <= i < r@.len() && #[trigger] r@[i]@ == n,
            forall|i: int, j: int| 0 <= i < j < r@.len() ==> r@[i]@ != r@[j]@,
    {
        let mut names: Vec<String> = Vec::new();
        let mut k: usize = 0;
        while k < self.values.len()
            invariant
                self.wf(),
                k <= self.values@.len(),
                names@.len() == k,
                forall|i: int| 0 <= i < k ==> #[trigger] names@[i]@ == self.values@[i].name@,
            decreases self.values.len() - k,
        {
            names.push(self.values[k].name.clone());
            k += 1;
        }
        proof {
            assert forall|i: int| 0 <= i < names@.len() implies self.values().contains_key(
                #[trigger] names@[i]@,
            ) by {
                self.lemma_value_at(i);
            }
            assert forall|n: Seq<char>| #[trigger] self.values().contains_key(n) implies exists|i: int|
                0 <= i < names@.len() && #[trigger] names@[i]@ == n by {
                let j = choose|j: int| 0 <= j < self.values@.len() && #[trigger] self.values@[j].name@ == n;
                assert(names@[j]@ == n);
            }
        }
        names
    }

    /// Every offered function has an index below the count, and no two names share an index.
    pub proof fn law_function_indices(&self)
        requires
            self.wf(),
        ensures
            forall|a: Seq<char>| #[trigger] self.functions().contains_key(a) ==> self.functions()[a].0
                < self.function_count(),
            forall|a: Seq<char>, b: Seq<char>|
                #[trigger] self.functions().contains_key(a) && #[trigger] self.functions().contains_key(b)
                    && a != b ==> self.functions()[a].0 != self.functions()[b].0,
    {
        assert forall|a: Seq<char>| #[trigger] self.functions().contains_key(a) implies self.functions()[a].0
            < self.function_count() by {
            let i = choose|i: int| 0 <= i < self.functions@.len() && #[trigger] self.functions@[i].name@ == a;
            self.lemma_function_at(i);
        }
        assert forall|a: Seq<char>, b: Seq<char>|
            #[trigger] self.functions().contains_key(a) && #[trigger] self.functions().contains_key(b)
                && a != b implies self.functions()[a].0 != self.functions()[b].0 by {
            let i = choose|i: int| 0 <= i < self.functions@.len() && #[trigger] self.functions@[i].name@ == a;
            let j = choose|j: int| 0 <= j < self.functions@.len() && #[trigger] self.functions@[j].name@ == b;
            self.lemma_function_at(i);
            self.lemma_function_at(j);
            assert(i != j);
        }
    }
}

impl<F, G> Default for Context<F, G> {
    fn default() -> (r: Self)
        ensures
            r.wf(),
            r.functions() == Map::<Seq<char>, (u8, F)>::empty(),
            r.values() == Map::<Seq<char>, G>::empty(),
            r.function_count() == 0,
    {
        Self::new()
    }
}

} // verus!