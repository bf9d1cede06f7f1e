use vstd::prelude::*;
use vstd::set_lib::{lemma_int_range, lemma_len_subset, set_int_range};
use vstd::string::StringExecFns;
use crate::value::Value;
use crate::input::{value_text, FieldValue};

verus! {

#[derive(Clone, Copy, Debug, PartialEq, Eq, Structural)]
pub enum TypeKind {
    Scalar,
    Object,
    Interface,
    Union,
    Enum,
    InputObject,
}

/// A field of an object, interface or input object. Its type is named, not
/// owned, so that types may refer to themselves and to each other.
#[derive(Debug)]
pub struct MetaField {
    pub name: String,
    pub field_type: String,
    pub description: Option<String>,
    /// The declared default of an input field.
    pub default_value: Option<FieldValue>,
}

/// The schema-level descriptor of a named type.
#[derive(Debug)]
pub struct MetaType {
    pub name: String,
    pub kind: TypeKind,
    pub description: Option<String>,
    pub fields: Vec<MetaField>,
    pub possible_types: Vec<String>,
    pub enum_values: Vec<String>,
}

/// Whether type `t` refers to the type named `n`, through a field or as one
/// of its possible types.
pub open spec fn references(t: MetaType, n: Seq<char>) -> bool {
    (exists|i: int| 0 <= i < t.fields@.len() && (#[trigger] t.fields@[i]).field_type@ == n) || (
    exists|i: int| 0 <= i < t.possible_types@.len() && (#[trigger] t.possible_types@[i])@ == n)
}

pub open spec fn declared(decls: Seq<MetaType>, n: Seq<char>) -> bool {
    exists|i: int| 0 <= i < decls.len() && (#[trigger] decls[i]).name@ == n
}

/// `i` is the first declaration named `n`; later ones of that name are shadowed.
pub open spec fn is_first_decl(decls: Seq<MetaType>, i: int, n: Seq<char>) -> bool {
    &&& 0 <= i < decls.len()
    &&& decls[i].name@ == n
    &&& forall|j: int| 0 <= j < i ==> (#[trigger] decls[j]).name@ != n
}

/// Every name that a declaration refers to is declared.
pub open spec fn decls_closed(decls: Seq<MetaType>) -> bool {
    forall|i: int, n: Seq<char>|
        0 <= i < decls.len() && #[trigger] references(decls[i], n) ==> declared(decls, n)
}

/// The memoized map from type name to descriptor for one schema: the
/// declarations it may draw on, and which of them are registered, in the
/// order they were registered.
pub struct Registry {
    decls: Vec<MetaType>,
    entries: Vec<usize>,
}

pub open spec fn unregistered(entries: Seq<usize>, n: nat) -> Set<int> {
    Set::new(|i: int| 0 <= i < n && !entries.contains(i as usize))
}

impl Registry {
    pub closed spec fn declarations(&self) -> Seq<MetaType> {
        self.decls@
    }

    /// The indices of the registered declarations, in registration order.
    pub closed spec fn entries(&self) -> Seq<usize> {
        self.entries@
    }

    pub open spec fn registered(&self, n: Seq<char>) -> bool {
        exists|k: int|
            0 <= k < self.entries().len() && (#[trigger] self.declarations()[self.entries()[k] as int]).name@ == n
    }

    /// Each registered entry is the first declaration of its name, and none is
    /// registered twice.
    pub open spec fn wf(&self) -> bool {
        &&& forall|k: int|
            0 <= k < self.entries().len() ==> #[trigger] is_first_decl(
                self.declarations(),
                self.entries()[k] as int,
                self.declarations()[self.entries()[k] as int].name@,
            )
        &&& self.entries().no_duplicates()
    }

    /// Every name that a registered type refers to is registered too.
    /// Whether the type named `n` is requested by `name` or referenced by a
    /// registered type.
    pub open spec fn wanted(&self, n: Seq<char>, name: Seq<char>) -> bool {
        n == name || exists|k: int|
            0 <= k < self.entries().len() && #[trigger] references(self.declarations()[self.entries()[k] as int], n)
    }

    pub open spec fn closed(&self) -> bool {
        forall|k: int, n: Seq<char>|
            0 <= k < self.entries().len() && #[trigger] references(
                self.declarations()[self.entries()[k] as int],
                n,
            ) ==> self.registered(n)
    }

    pub fn new(decls: Vec<MetaType>) -> (r: Registry)
        ensures
            r.declarations() == decls@,
            r.entries() == Seq::<usize>::empty(),
            r.wf(),
            r.closed(),
    {
        Registry { decls, entries: Vec::new() }
    }

    /// The number of registered types.
    pub fn len(&self) -> (r: usize)
        ensures
            r == self.entries().len(),
    {
        self.entries.len()
    }
}

fn find_decl(decls: &Vec<MetaType>, name: &String) -> (r: Option<usize>)
    ensures
        r matches Some(i) ==> is_first_decl(decls@, i as int, name@),
        r is None ==> !declared(decls@, name@),
{
    let mut i: usize = 0;
    while i < decls.len()
        invariant
            i <= decls.len(),
            forall|j: int| 0 <= j < i ==> (#[trigger] decls@[j]).name@ != name@,
        decreases decls.len() - i,
    {
        if decls[i].name.eq(name) {
            return Some(i);
        }
        i = i + 1;
    }
    None
}

fn contains_index(entries: &Vec<usize>, i: usize) -> (r: bool)
    ensures
        r == entries@.contains(i),
{
    let mut k: usize = 0;
    while k < entries.len()
        invariant
            k <= entries.len(),
            forall|j: int| 0 <= j < k ==> entries@[j] != i,
        decreases entries.len() - k,
    {
        if entries[k] == i {
            return true;
        }
        k = k + 1;
    }
    false
}

proof fn lemma_first_decl_unique(decls: Seq<MetaType>, i: int, j: int, n: Seq<char>)
    requires
        is_first_decl(decls, i, n),
        is_first_decl(decls, j, n),
    ensures
        i == j,
{
}

proof fn lemma_unregistered_finite(entries: Seq<usize>, n: nat)
    ensures
        unregistered(entries, n).finite(),
{
    lemma_int_range(0, n as int);
    lemma_len_subset(unregistered(entries, n), set_int_range(0, n as int));
}

/// Appends to `work` the name of every type that `t` refers to.
fn push_references(t: &MetaType, work: &mut Vec<String>)
    ensures
        final(work)@.len() >= old(work)@.len(),
        forall|w: int| 0 <= w < old(work)@.len() ==> final(work)@[w] == old(work)@[w],
        forall|m: Seq<char>|
            #[trigger] references(*t, m) ==> exists|w: int|
                old(work)@.len() <= w < final(work)@.len() && (#[trigger] final(work)@[w])@ == m,
        forall|w: int|
            old(work)@.len() <= w < final(work)@.len() ==> references(*t, (#[trigger] final(work)@[w])@),
{
    let ghost w0 = work@;
    let mut f: usize = 0;
    while f < t.fields.len()
        invariant
            f <= t.fields@.len(),
            work@.len() == w0.len() + f,
            forall|w: int| 0 <= w < w0.len() ==> work@[w] == w0[w],
            forall|j: int| 0 <= j < f ==> (#[trigger] t.fields@[j]).field_type@ == work@[w0.len() + j]@,
            forall|w: int| w0.len() <= w < work@.len() ==> references(*t, (#[trigger] work@[w])@),
        decreases t.fields@.len() - f,
    {
        work.push(t.fields[f].field_type.clone());
        proof {
            assert(t.fields@[f as int].field_type@ == work@[w0.len() + f]@);
        }
        f = f + 1;
    }
    let ghost w1 = work@;
    let mut p: usize = 0;
    while p < t.possible_types.len()
        invariant
            f == t.fields@.len(),
            p <= t.possible_types@.len(),
            work@.len() == w1.len() + p,
            w1.len() == w0.len() + f,
            forall|w: int| 0 <= w < w1.len() ==> work@[w] == w1[w],
            forall|w: int| 0 <= w < w0.len() ==> w1[w] == w0[w],
            forall|j: int| 0 <= j < f ==> (#[trigger] t.fields@[j]).field_type@ == w1[w0.len() + j]@,
            forall|j: int| 0 <= j < p ==> (#[trigger] t.possible_types@[j])@ == work@[w1.len() + j]@,
            forall|w: int| w0.len() <= w < work@.len() ==> references(*t, (#[trigger] work@[w])@),
        decreases t.possible_types@.len() - p,
    {
        work.push(t.possible_types[p].clone());
        proof {
            assert(t.possible_types@[p as int]@ == work@[w1.len() + p]@);
        }
        p = p + 1;
    }
    assert forall|m: Seq<char>| #[trigger] references(*t, m) implies exists|w: int|
        w0.len() <= w < work@.len() && (#[trigger] work@[w])@ == m by {
        if exists|i: int| 0 <= i < t.fields@.len() && (#[trigger] t.fields@[i]).field_type@ == m {
            let i = choose|i: int| 0 <= i < t.fields@.len() && (#[trigger] t.fields@[i]).field_type@ == m;
            assert(work@[w0.len() + i]@ == m);
        } else {
            let i = choose|i: int|
                0 <= i < t.possible_types@.len() && (#[trigger] t.possible_types@[i])@ == m;
            assert(work@[w1.len() + i]@ == m);
        }
    }
}

impl Registry {
    proof fn lemma_registered_entry(&self, n: Seq<char>, i: usize)
        requires
            self.wf(),
            is_first_decl(self.declarations(), i as int, n),
        ensures
            self.registered(n) <==> self.entries().contains(i),
    {
        if self.registered(n) {
            let k = choose|k: int|
                0 <= k < self.entries().len() && (#[trigger] self.declarations()[self.entries()[k] as int]).name@ == n;
            assert(is_first_decl(self.declarations(), self.entries()[k] as int, n));
            lemma_first_decl_unique(self.declarations(), i as int, self.entries()[k] as int, n);
        }
        if self.entries().contains(i) {
            let k = choose|k: int| 0 <= k < self.entries().len() && self.entries()[k] == i;
            assert(self.declarations()[self.entries()[k] as int].name@ == n);
        }
    }

    proof fn lemma_wanted_grows(&self, later: &Registry, n: Seq<char>, name: Seq<char>)
        requires
            self.wanted(n, name),
            later.decls@ == self.decls@,
            later.entries@.len() >= self.entries@.len(),
            forall|k: int| 0 <= k < self.entries@.len() ==> later.entries@[k] == self.entries@[k],
        ensures
            later.wanted(n, name),
    {
        if n != name {
            let k = choose|k: int|
                0 <= k < self.entries().len() && #[trigger] references(self.declarations()[self.entries()[k] as int], n);
            assert(later.entries@[k] == self.entries@[k]);
            assert(references(later.declarations()[later.entries()[k] as int], n));
        }
    }

    /// Registers the type named `name` together with every type it reaches
    /// through its references, each at most once, and returns the index of
    /// its declaration. A type that refers to itself, directly or through a
    /// cycle, finds itself registered and is not built again. When a reached
    /// name has no declaration, that name is returned as the error and the
    /// registry is left as it was.
    pub fn get_or_build(&mut self, name: &String) -> (r: Result<usize, String>)
        requires
            old(self).wf(),
            old(self).closed(),
        ensures
            final(self).wf(),
            final(self).declarations() == old(self).declarations(),
            final(self).entries().len() >= old(self).entries().len(),
            forall|k: int| 0 <= k < old(self).entries().len() ==> final(self).entries()[k] == old(self).entries()[k],
            r matches Ok(i) ==> is_first_decl(final(self).declarations(), i as int, name@)
                && final(self).registered(name@) && final(self).closed(),
            r matches Err(m) ==> !declared(old(self).declarations(), m@) && final(self).entries()
                == old(self).entries(),
            forall|k: int|
                old(self).entries().len() <= k < final(self).entries().len() ==> final(self).wanted(
                    #[trigger] final(self).declarations()[final(self).entries()[k] as int].name@,
                    name@,
                ),
            decls_closed(old(self).declarations()) && declared(old(self).declarations(), name@)
                ==> r is Ok,
    {
        let ghost old_entries = self.entries@;
        let start_len = self.entries.len();
        let n_decls = self.decls.len();
        let mut work: Vec<String> = Vec::new();
        work.push(name.clone());
        proof {
            lemma_unregistered_finite(self.entries@, self.decls@.len());
            assert(work@[0]@ == name@);
        }
        while work.len() > 0
            invariant
                self.wf(),
                self.decls@ == old(self).decls@,
                n_decls == self.decls@.len(),
                start_len == old_entries.len(),
                old_entries == old(self).entries@,
                self.entries@.len() >= start_len,
                forall|k: int| 0 <= k < start_len ==> self.entries@[k] == old_entries[k],
                old(self).closed(),
                unregistered(self.entries@, self.decls@.len()).finite(),
                forall|k: int, n: Seq<char>|
                    start_len <= k < self.entries@.len() && #[trigger] references(
                        self.decls@[self.entries@[k] as int],
                        n,
                    ) ==> self.registered(n) || exists|w: int|
                        0 <= w < work@.len() && (#[trigger] work@[w])@ == n,
                self.registered(name@) || exists|w: int| 0 <= w < work@.len() && (#[trigger] work@[w])@ == name@,
                decls_closed(self.decls@) && declared(self.decls@, name@) ==> forall|w: int|
                    0 <= w < work@.len() ==> declared(self.decls@, (#[trigger] work@[w])@),
                forall|w: int| 0 <= w < work@.len() ==> self.wanted((#[trigger] work@[w])@, name@),
                forall|k: int|
                    start_len <= k < self.entries@.len() ==> self.wanted(
                        #[trigger] self.decls@[self.entries@[k] as int].name@,
                        name@,
                    ),
            decreases unregistered(self.entries@, self.decls@.len()).len(), work.len(),
        {
            let ghost work0 = work@;
            let ghost entries0 = self.entries@;
            let n = work.pop().unwrap();
            proof {
                assert(work0[work0.len() - 1] == n);
                assert forall|w: int| 0 <= w < work@.len() implies work@[w] == work0[w] by {}
            }
            match find_decl(&self.decls, &n) {
                None => {
                    proof {
                        if decls_closed(self.decls@) && declared(self.decls@, name@) {
                            assert(declared(self.decls@, work0[work0.len() - 1]@));
                        }
                    }
                    self.entries.truncate(start_len);
                    proof {
                        assert(self.entries@ =~= old_entries);
                    }
                    return Err(n);
                },
                Some(i) => {
                    proof {
                        self.lemma_registered_entry(n@, i);
                    }
                    if !contains_index(&self.entries, i) {
                        let ghost snap = *self;
                        let ghost unreg0 = unregistered(self.entries@, self.decls@.len());
                        self.entries.push(i);
                        proof {
                            assert forall|j: int| 0 <= j < n_decls implies (#[trigger] self.entries@.contains(j as usize) <==> (
                                entries0.contains(j as usize) || j == i as int)) by {
                                if entries0.contains(j as usize) {
                                    let k = choose|k: int| 0 <= k < entries0.len() && entries0[k] == j as usize;
                                    assert(self.entries@[k] == entries0[k]);
                                }
                                if j == i as int {
                                    assert(self.entries@[entries0.len() as int] == i);
                                }
                                if self.entries@.contains(j as usize) {
                                    let k = choose|k: int| 0 <= k < self.entries@.len() && self.entries@[k] == j as usize;
                                    if k < entries0.len() {
                                        assert(entries0[k] == j as usize);
                                    }
                                }
                            }
                            assert(unregistered(self.entries@, self.decls@.len()) =~= unreg0.remove(i as int));
                            assert(unreg0.contains(i as int));
                            lemma_unregistered_finite(self.entries@, self.decls@.len());
                            assert(self.registered(n@)) by {
                                assert(self.declarations()[self.entries()[entries0.len() as int] as int].name@ == n@);
                            }
                            assert forall|m: Seq<char>| #[trigger] self.registered(m) <== (exists|k: int|
                                0 <= k < entries0.len() && (#[trigger] self.decls@[entries0[k] as int]).name@ == m) by {
                                if exists|k: int| 0 <= k < entries0.len() && (#[trigger] self.decls@[entries0[k] as int]).name@ == m {
                                    let k = choose|k: int| 0 <= k < entries0.len() && (#[trigger] self.decls@[entries0[k] as int]).name@ == m;
                                    assert(self.entries@[k] == entries0[k]);
                                }
                            }
                        }
                        let ghost work1 = work@;
                        push_references(&self.decls[i], &mut work);
                        proof {
                            assert forall|w: int| 0 <= w < work@.len() implies self.wanted((#[trigger] work@[w])@, name@) by {
                                if w < work1.len() {
                                    assert(work@[w] == work1[w]);
                                    assert(work1[w] == work0[w]);
                                    snap.lemma_wanted_grows(self, work@[w]@, name@);
                                } else {
                                    let last = entries0.len() as int;
                                    assert(self.entries@[last] == i);
                                    assert(references(self.decls@[self.entries@[last] as int], work@[w]@));
                                }
                            }
                            assert forall|k: int|
                                start_len <= k < self.entries@.len() implies self.wanted(
                                    #[trigger] self.decls@[self.entries@[k] as int].name@,
                                    name@,
                                ) by {
                                if k < entries0.len() {
                                    assert(self.entries@[k] == entries0[k]);
                                    snap.lemma_wanted_grows(self, self.decls@[self.entries@[k] as int].name@, name@);
                                } else {
                                    assert(self.entries@[k] == i);
                                    assert(snap.wanted(work0[work0.len() - 1]@, name@));
                                    snap.lemma_wanted_grows(self, n@, name@);
                                }
                            }
                            assert forall|k: int, m: Seq<char>|
                                start_len <= k < self.entries@.len() && #[trigger] references(
                                    self.decls@[self.entries@[k] as int],
                                    m,
                                ) implies self.registered(m) || exists|w: int|
                                    0 <= w < work@.len() && (#[trigger] work@[w])@ == m by {
                                if k < entries0.len() {
                                    assert(self.entries@[k] == entries0[k]);
                                    if !(exists|w: int| 0 <= w < work1.len() && (#[trigger] work1[w])@ == m) {
                                        if !(exists|k2: int| 0 <= k2 < entries0.len() && (#[trigger] self.decls@[entries0[k2] as int]).name@ == m) {
                                            assert(m == n@);
                                        }
                                    } else {
                                        let w = choose|w: int| 0 <= w < work1.len() && (#[trigger] work1[w])@ == m;
                                        assert(work@[w] == work1[w]);
                                    }
                                }
                            }
                            if !self.registered(name@) {
                                assert(!(exists|k2: int| 0 <= k2 < entries0.len() && (#[trigger] self.decls@[entries0[k2] as int]).name@ == name@));
                                let w = choose|w: int| 0 <= w < work0.len() && (#[trigger] work0[w])@ == name@;
                                assert(w < work1.len());
                                assert(work@[w] == work1[w]);
                            }
                            if decls_closed(self.decls@) && declared(self.decls@, name@) {
                                assert forall|w: int| 0 <= w < work@.len() implies declared(self.decls@, (#[trigger] work@[w])@) by {
                                    if w < work1.len() {
                                        assert(work@[w] == work1[w]);
                                        assert(work1[w] == work0[w]);
                                    } else {
                                        assert(references(self.decls@[i as int], work@[w]@));
                                    }
                                }
                            }
                        }
                    } else {
                        proof {
                            assert forall|w: int| 0 <= w < work@.len() implies self.wanted((#[trigger] work@[w])@, name@) by {
                                assert(work@[w] == work0[w]);
                            }
                            assert forall|k: int, m: Seq<char>|
                                start_len <= k < self.entries@.len() && #[trigger] references(
                                    self.decls@[self.entries@[k] as int],
                                    m,
                                ) implies self.registered(m) || exists|w: int|
                                    0 <= w < work@.len() && (#[trigger] work@[w])@ == m by {
                                if exists|w: int| 0 <= w < work0.len() && (#[trigger] work0[w])@ == m {
                                    let w = choose|w: int| 0 <= w < work0.len() && (#[trigger] work0[w])@ == m;
                                    if w < work@.len() {
                                        assert(work@[w] == work0[w]);
                                    }
                                }
                            }
                            if !self.registered(name@) {
                                let w = choose|w: int| 0 <= w < work0.len() && (#[trigger] work0[w])@ == name@;
                                assert(work@[w] == work0[w]);
                            }
                            if decls_closed(self.decls@) && declared(self.decls@, name@) {
                                assert forall|w: int| 0 <= w < work@.len() implies declared(self.decls@, (#[trigger] work@[w])@) by {
                                    assert(work@[w] == work0[w]);
                                }
                            }
                        }
                    }
                },
            }
        }
        proof {
            let k = choose|k: int|
                0 <= k < self.entries().len() && (#[trigger] self.declarations()[self.entries()[k] as int]).name@ == name@;
            assert(declared(self.decls@, name@)) by {
                assert(is_first_decl(
                    self.declarations(),
                    self.entries()[k] as int,
                    self.declarations()[self.entries()[k] as int].name@,
                ));
                assert(self.decls@[self.entries@[k] as int].name@ == name@);
            }
            assert forall|k: int, m: Seq<char>|
                0 <= k < self.entries().len() && #[trigger] references(
                    self.declarations()[self.entries()[k] as int],
                    m,
                ) implies self.registered(m) by {
                if k < start_len {
                    assert(self.entries@[k] == old_entries[k]);
                    assert(old(self).registered(m));
                    let k2 = choose|k2: int|
                        0 <= k2 < old(self).entries().len() && (#[trigger] old(self).declarations()[old(self).entries()[k2] as int]).name@ == m;
                    assert(self.entries@[k2] == old_entries[k2]);
                }
            }
        }
        match find_decl(&self.decls, name) {
            Some(i) => Ok(i),
            None => {
                proof {
                    assert(false);
                }
                Err(name.clone())
            },
        }
    }

    /// The registered type named `name`, if there is one.
    pub fn type_named(&self, name: &String) -> (r: Option<&MetaType>)
        requires
            self.wf(),
        ensures
            r is Some <==> self.registered(name@),
            r matches Some(t) ==> t.name@ == name@ && exists|k: int|
                0 <= k < self.entries().len() && *t == self.declarations()[self.entries()[k] as int],
    {
        match find_decl(&self.decls, name) {
            Some(i) => {
                proof {
                    self.lemma_registered_entry(name@, i);
                }
                if contains_index(&self.entries, i) {
                    proof {
                        let k = choose|k: int| 0 <= k < self.entries@.len() && self.entries@[k] == i;
                        assert(self.decls@[self.entries@[k] as int] == self.decls@[i as int]);
                    }
                    Some(&self.decls[i])
                } else {
                    None
                }
            },
            None => {
                proof {
                    if self.registered(name@) {
                        let k = choose|k: int|
                            0 <= k < self.entries().len() && (#[trigger] self.declarations()[self.entries()[k] as int]).name@ == name@;
                        assert(is_first_decl(
                            self.declarations(),
                            self.entries()[k] as int,
                            self.declarations()[self.entries()[k] as int].name@,
                        ));
                    }
                }
                None
            },
        }
    }

    /// The names of the registered types, in the order they were registered.
    pub fn type_names(&self) -> (r: Vec<String>)
        requires
            self.wf(),
        ensures
            r@.len() == self.entries().len(),
            forall|k: int| 0 <= k < r@.len() ==> (#[trigger] r@[k])@ == self.declarations()[self.entries()[k] as int].name@,
    {
        let mut out: Vec<String> = Vec::new();
        let mut k: usize = 0;
        while k < self.entries.len()
            invariant
                self.wf(),
                k <= self.entries@.len(),
                out@.len() == k,
                forall|j: int| 0 <= j < k ==> (#[trigger] out@[j])@ == self.decls@[self.entries@[j] as int].name@,
            decreases self.entries@.len() - k,
        {
            let i = self.entries[k];
            proof {
                assert(is_first_decl(self.declarations(), self.entries()[k as int] as int, self.declarations()[self.entries()[k as int] as int].name@));
            }
            out.push(self.decls[i].name.clone());
            k = k + 1;
        }
        out
    }

    /// In a well-formed registry each name is registered once: two entries
    /// that carry the same name are the same entry.
    pub proof fn lemma_registered_once(&self, k1: int, k2: int)
        requires
            self.wf(),
            0 <= k1 < self.entries().len(),
            0 <= k2 < self.entries().len(),
            self.declarations()[self.entries()[k1] as int].name@ == self.declarations()[self.entries()[k2] as int].name@,
        ensures
            k1 == k2,
    {
        let n = self.declarations()[self.entries()[k1] as int].name@;
        assert(is_first_decl(self.declarations(), self.entries()[k1] as int, n));
        assert(is_first_decl(self.declarations(), self.entries()[k2] as int, self.declarations()[self.entries()[k2] as int].name@));
        lemma_first_decl_unique(self.declarations(), self.entries()[k1] as int, self.entries()[k2] as int, n);
    }
}

pub open spec fn kind_name(k: TypeKind) -> Seq<char> {
    match k {
        TypeKind::Scalar => "SCALAR"@,
        TypeKind::Object => "OBJECT"@,
        TypeKind::Interface => "INTERFACE"@,
        TypeKind::Union => "UNION"@,
        TypeKind::Enum => "ENUM"@,
        TypeKind::InputObject => "INPUT_OBJECT"@,
    }
}

/// The key under which introspection lists a type's fields.
pub open spec fn fields_key(k: TypeKind) -> Seq<char> {
    match k {
        TypeKind::InputObject => "inputFields"@,
        _ => "fields"@,
    }
}

pub open spec fn str_is(v: Value, s: Seq<char>) -> bool {
    match v {
        Value::String(t) => t@ == s,
        _ => false,
    }
}

pub open spec fn opt_str_is(v: Value, s: Option<String>) -> bool {
    match s {
        Some(d) => str_is(v, d@),
        None => v is Null,
    }
}

pub open spec fn strs_are(v: Value, ss: Seq<String>) -> bool {
    match v {
        Value::List(vs) => vs@.len() == ss.len() && forall|i: int| 0 <= i < ss.len() ==> str_is(#[trigger] vs@[i], ss[i]@),
        _ => false,
    }
}

/// What introspection shows as `defaultValue`: the literal text of the
/// default, or null.
pub open spec fn default_is(v: Value, d: Option<FieldValue>) -> bool {
    match d {
        Some(x) => str_is(v, value_text(x@)),
        None => v is Null,
    }
}

/// The introspection object of a field: `{name, description, type: {name},
/// defaultValue}`.
pub open spec fn field_value_is(v: Value, f: MetaField) -> bool {
    match v {
        Value::Object(es) => es@.len() == 4 && es@[3].0@ == "defaultValue"@ && default_is(es@[3].1, f.default_value)
            && es@[0].0@ == "name"@ && str_is(es@[0].1, f.name@) && es@[1].0@
            == "description"@ && opt_str_is(es@[1].1, f.description) && es@[2].0@ == "type"@ && match es@[2].1 {
            Value::Object(ts) => ts@.len() == 1 && ts@[0].0@ == "name"@ && str_is(ts@[0].1, f.field_type@),
            _ => false,
        },
        _ => false,
    }
}

pub open spec fn fields_are(v: Value, fs: Seq<MetaField>) -> bool {
    match v {
        Value::List(vs) => vs@.len() == fs.len() && forall|i: int| 0 <= i < fs.len() ==> field_value_is(#[trigger] vs@[i], fs[i]),
        _ => false,
    }
}

/// The introspection object of a type: `{name, kind, description, fields (or
/// inputFields), possibleTypes, enumValues}`.
pub open spec fn type_value_is(v: Value, t: MetaType) -> bool {
    match v {
        Value::Object(es) => es@.len() == 6 && es@[0].0@ == "name"@ && str_is(es@[0].1, t.name@) && es@[1].0@
            == "kind"@ && str_is(es@[1].1, kind_name(t.kind)) && es@[2].0@ == "description"@ && opt_str_is(
            es@[2].1,
            t.description,
        ) && es@[3].0@ == fields_key(t.kind) && fields_are(es@[3].1, t.fields@) && es@[4].0@ == "possibleTypes"@
            && strs_are(es@[4].1, t.possible_types@) && es@[5].0@ == "enumValues"@ && strs_are(
            es@[5].1,
            t.enum_values@,
        ),
        _ => false,
    }
}

fn opt_string_value(s: &Option<String>) -> (r: Value)
    ensures
        opt_str_is(r, *s),
{
    match s {
        Some(d) => Value::String(d.clone()),
        None => Value::Null,
    }
}

fn strings_value(ss: &Vec<String>) -> (r: Value)
    ensures
        strs_are(r, ss@),
{
    let mut out: Vec<Value> = Vec::new();
    let mut i: usize = 0;
    while i < ss.len()
        invariant
            i <= ss@.len(),
            out@.len() == i,
            forall|j: int| 0 <= j < i ==> str_is(#[trigger] out@[j], ss@[j]@),
        decreases ss@.len() - i,
    {
        out.push(Value::String(ss[i].clone()));
        i = i + 1;
    }
    Value::List(out)
}

fn field_value(f: &MetaField) -> (r: Value)
    ensures
        field_value_is(r, *f),
{
    proof {
        reveal_strlit("name");
        reveal_strlit("description");
        reveal_strlit("type");
        reveal_strlit("defaultValue");
    }
    let ty = Value::Object(vec![(String::from_str("name"), Value::String(f.field_type.clone()))]);
    let default = match &f.default_value {
        Some(d) => Value::String(d.literal_text()),
        None => Value::Null,
    };
    Value::Object(vec![
        (String::from_str("name"), Value::String(f.name.clone())),
        (String::from_str("description"), opt_string_value(&f.description)),
        (String::from_str("type"), ty),
        (String::from_str("defaultValue"), default),
    ])
}

fn fields_value(fs: &Vec<MetaField>) -> (r: Value)
    ensures
        fields_are(r, fs@),
{
    let mut out: Vec<Value> = Vec::new();
    let mut i: usize = 0;
    while i < fs.len()
        invariant
            i <= fs@.len(),
            out@.len() == i,
            forall|j: int| 0 <= j < i ==> field_value_is(#[trigger] out@[j], fs@[j]),
        decreases fs@.len() - i,
    {
        out.push(field_value(&fs[i]));
        i = i + 1;
    }
    Value::List(out)
}

fn kind_text(k: TypeKind) -> (r: String)
    ensures
        r@ == kind_name(k),
{
    proof {
        reveal_strlit("SCALAR");
        reveal_strlit("OBJECT");
        reveal_strlit("INTERFACE");
        reveal_strlit("UNION");
        reveal_strlit("ENUM");
        reveal_strlit("INPUT_OBJECT");
    }
    match k {
        TypeKind::Scalar => String::from_str("SCALAR"),
        TypeKind::Object => String::from_str("OBJECT"),
        TypeKind::Interface => String::from_str("INTERFACE"),
        TypeKind::Union => String::from_str("UNION"),
        TypeKind::Enum => String::from_str("ENUM"),
        TypeKind::InputObject => String::from_str("INPUT_OBJECT"),
    }
}

/// The introspection object of a type.
pub fn type_value(t: &MetaType) -> (r: Value)
    ensures
        type_value_is(r, *t),
{
    proof {
        reveal_strlit("name");
        reveal_strlit("kind");
        reveal_strlit("description");
        reveal_strlit("inputFields");
        reveal_strlit("fields");
        reveal_strlit("possibleTypes");
        reveal_strlit("enumValues");
    }
    let key = match t.kind {
        TypeKind::InputObject => String::from_str("inputFields"),
        _ => String::from_str("fields"),
    };
    Value::Object(vec![
        (String::from_str("name"), Value::String(t.name.clone())),
        (String::from_str("kind"), Value::String(kind_text(t.kind))),
        (String::from_str("description"), opt_string_value(&t.description)),
        (key, fields_value(&t.fields)),
        (String::from_str("possibleTypes"), strings_value(&t.possible_types)),
        (String::from_str("enumValues"), strings_value(&t.enum_values)),
    ])
}

impl Registry {
    /// What `__type(name)` shows: the introspection object of the registered
    /// type of that name, or null when no such type is registered.
    pub fn introspect_type(&self, name: &String) -> (r: Value)
        requires
            self.wf(),
        ensures
            !self.registered(name@) ==> r is Null,
            self.registered(name@) ==> exists|k: int|
                0 <= k < self.entries().len() && self.declarations()[self.entries()[k] as int].name@ == name@
                    && type_value_is(r, #[trigger] self.declarations()[self.entries()[k] as int]),
    {
        match self.type_named(name) {
            Some(t) => type_value(t),
            None => Value::Null,
        }
    }
}

} // verus!
