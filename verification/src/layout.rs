//! Layout Manager: per-struct field order and offsets.
//!
//! Field order is fixed at first registration and never reordered; it
//! determines memory layout. Struct declarations are registered in an
//! emission order in which every struct comes strictly after every struct it
//! contains by value; a cyclic by-value containment graph is a fatal
//! registration error.

use vstd::prelude::*;
use crate::ast::{ClassNode, Type};
use crate::errors::CodegenError;
use crate::text::str_eq;

verus! {

/// The layout of one struct: its fields in declaration order.
pub struct ClassInfo {
    pub fields: Vec<(String, Type)>,
}

impl ClassInfo {
    /// Field names are pairwise distinct.
    pub open spec fn wf(&self) -> bool {
        forall|i: int, j: int|
            0 <= i < j < self.fields@.len() ==> self.fields@[i].0@ != self.fields@[j].0@
    }

    /// Whether a field of that name is part of the layout.
    pub open spec fn spec_contains_field(&self, name: Seq<char>) -> bool {
        exists|i: int| 0 <= i < self.fields@.len() && self.fields@[i].0@ == name
    }

    /// The position of the named field.
    pub open spec fn spec_field_index(&self, name: Seq<char>) -> int {
        choose|i: int| 0 <= i < self.fields@.len() && self.fields@[i].0@ == name
    }

    /// An empty layout, ready to receive fields.
    pub fn new() -> (r: Self)
        ensures
            r.fields@.len() == 0,
            r.wf(),
    {
        ClassInfo { fields: Vec::new() }
    }

    /// Appends a field; the caller guarantees the name is new.
    pub fn add_field(&mut self, field_name: &str, typ: &Type)
        requires
            !old(self).spec_contains_field(field_name@),
        ensures
            final(self).fields@.len() == old(self).fields@.len() + 1,
            forall|k: int|
                0 <= k < old(self).fields@.len() ==> final(self).fields@[k] == old(
                    self,
                ).fields@[k],
            final(self).fields@.last().0@ == field_name@,
            final(self).fields@.last().1.matches(*typ),
            !(*typ is Arr) ==> final(self).fields@.last().1 == *typ,
            old(self).wf() ==> final(self).wf(),
            forall|n: Seq<char>|
                final(self).spec_contains_field(n) == (old(self).spec_contains_field(n) || n
                    == field_name@),
    {
        let name = field_name.to_owned();
        let t = typ.clone();
        self.fields.push((name, t));
        proof {
            let post = self.fields@;
            let pre = old(self).fields@;
            assert(forall|k: int| 0 <= k < pre.len() ==> post[k] == pre[k]);
            assert forall|n: Seq<char>|
                post.len() > 0 && #[trigger] self.spec_contains_field(n) implies (old(
                self,
            ).spec_contains_field(n) || n == field_name@) by {
                let i = choose|i: int| 0 <= i < post.len() && post[i].0@ == n;
                if i < pre.len() {
                    assert(pre[i].0@ == n);
                }
            }
        }
    }

    /// Whether a field of that name was registered.
    pub fn has_field(&self, field_name: &str) -> (r: bool)
        ensures
            r == self.spec_contains_field(field_name@),
    {
        let mut i: usize = 0;
        while i < self.fields.len()
            invariant
                i <= self.fields@.len(),
                forall|k: int| 0 <= k < i ==> self.fields@[k].0@ != field_name@,
            decreases self.fields@.len() - i,
        {
            if str_eq(self.fields[i].0.as_str(), field_name) {
                return true;
            }
            i = i + 1;
        }
        proof {
            assert(!self.spec_contains_field(field_name@));
        }
        false
    }

    /// Returns the positional index of a field.
    ///
    /// Valid only for registered fields: the type checker has already
    /// validated existence, so a miss is an internal-invariant failure and is
    /// excluded by precondition.
    pub fn get_field_index(&self, field_name: &str) -> (r: usize)
        requires
            self.wf(),
            self.spec_contains_field(field_name@),
        ensures
            r < self.fields@.len(),
            self.fields@[r as int].0@ == field_name@,
            r == self.spec_field_index(field_name@),
    {
        let mut i: usize = 0;
        while i < self.fields.len()
            invariant
                i <= self.fields@.len(),
                forall|k: int| 0 <= k < i ==> self.fields@[k].0@ != field_name@,
            decreases self.fields@.len() - i,
        {
            if str_eq(self.fields[i].0.as_str(), field_name) {
                proof {
                    assert(self.spec_contains_field(field_name@));
                    let c = self.spec_field_index(field_name@);
                    assert(0 <= c < self.fields@.len() && self.fields@[c].0@ == field_name@);
                    if c < i {
                        assert(self.fields@[c].0@ != self.fields@[i as int].0@);
                    } else if i < c {
                        assert(self.fields@[i as int].0@ != self.fields@[c].0@);
                    }
                }
                return i;
            }
            i = i + 1;
        }
        proof {
            let w = choose|k: int| 0 <= k < self.fields@.len() && self.fields@[k].0@
                == field_name@;
            assert(false);
        }
        unreached()
    }
}

/// Field indices form a bijection: the index of the `k`-th field's name is
/// `k`, so indices are stable across calls, pairwise distinct, and cover the
/// whole range of positions.
pub proof fn lemma_field_index_bijection(ci: ClassInfo)
    requires
        ci.wf(),
    ensures
        forall|k: int|
            0 <= k < ci.fields@.len() ==> ci.spec_field_index(#[trigger] ci.fields@[k].0@) == k,
{
    assert forall|k: int| 0 <= k < ci.fields@.len() implies ci.spec_field_index(
        #[trigger] ci.fields@[k].0@,
    ) == k by {
        assert(ci.spec_contains_field(ci.fields@[k].0@));
        let c = ci.spec_field_index(ci.fields@[k].0@);
        assert(0 <= c < ci.fields@.len() && ci.fields@[c].0@ == ci.fields@[k].0@);
    }
}

/// The table of every registered struct layout.
pub struct SizeManager {
    pub structs: Vec<(String, ClassInfo)>,
}

impl SizeManager {
    /// Struct names are pairwise distinct and every layout is well formed.
    pub open spec fn wf(&self) -> bool {
        &&& forall|i: int, j: int|
            0 <= i < j < self.structs@.len() ==> self.structs@[i].0@ != self.structs@[j].0@
        &&& forall|i: int| 0 <= i < self.structs@.len() ==> (#[trigger] self.structs@[i].1).wf()
    }

    /// Whether a layout was registered under that name.
    pub open spec fn spec_contains_struct(&self, name: Seq<char>) -> bool {
        exists|i: int| 0 <= i < self.structs@.len() && self.structs@[i].0@ == name
    }

    /// The registration position of the named struct.
    pub open spec fn spec_struct_index(&self, name: Seq<char>) -> int {
        choose|i: int| 0 <= i < self.structs@.len() && self.structs@[i].0@ == name
    }

    /// The layout registered under a name.
    pub open spec fn spec_info_of(&self, name: Seq<char>) -> ClassInfo {
        self.structs@[self.spec_struct_index(name)].1
    }

    /// An empty table.
    pub fn new() -> (r: Self)
        ensures
            r.structs@.len() == 0,
            r.wf(),
    {
        SizeManager { structs: Vec::new() }
    }

    /// Registers a new struct with an empty layout; the caller guarantees the
    /// name is new.
    pub fn add_struct(&mut self, struct_name: &str)
        requires
            !old(self).spec_contains_struct(struct_name@),
        ensures
            final(self).structs@.len() == old(self).structs@.len() + 1,
            forall|k: int|
                0 <= k < old(self).structs@.len() ==> final(self).structs@[k] == old(
                    self,
                ).structs@[k],
            final(self).structs@.last().0@ == struct_name@,
            final(self).structs@.last().1.fields@.len() == 0,
            old(self).wf() ==> final(self).wf(),
            forall|n: Seq<char>|
                final(self).spec_contains_struct(n) == (old(self).spec_contains_struct(n) || n
                    == struct_name@),
    {
        let name = struct_name.to_owned();
        self.structs.push((name, ClassInfo::new()));
        proof {
            let post = self.structs@;
            let pre = old(self).structs@;
            assert forall|n: Seq<char>| #[trigger]
                self.spec_contains_struct(n) implies (old(self).spec_contains_struct(n) || n
                == struct_name@) by {
                let i = choose|i: int| 0 <= i < post.len() && post[i].0@ == n;
                if i < pre.len() {
                    assert(pre[i].0@ == n);
                }
            }
            assert forall|n: Seq<char>|
                old(self).spec_contains_struct(n) || n
                == struct_name@ implies #[trigger] self.spec_contains_struct(n) by {
                if old(self).spec_contains_struct(n) {
                    let i = choose|i: int| 0 <= i < pre.len() && pre[i].0@ == n;
                    assert(post[i].0@ == n);
                } else {
                    assert(post.last().0@ == n);
                }
            }
        }
    }

    /// Whether a layout was registered under that name.
    pub fn contains_struct(&self, struct_name: &str) -> (r: bool)
        ensures
            r == self.spec_contains_struct(struct_name@),
    {
        let mut i: usize = 0;
        while i < self.structs.len()
            invariant
                i <= self.structs@.len(),
                forall|k: int| 0 <= k < i ==> self.structs@[k].0@ != struct_name@,
            decreases self.structs@.len() - i,
        {
            if str_eq(self.structs[i].0.as_str(), struct_name) {
                return true;
            }
            i = i + 1;
        }
        proof {
            assert(!self.spec_contains_struct(struct_name@));
        }
        false
    }

    /// Finds the position of a registered struct.
    fn find_struct(&self, struct_name: &str) -> (r: usize)
        requires
            self.spec_contains_struct(struct_name@),
        ensures
            r < self.structs@.len(),
            self.structs@[r as int].0@ == struct_name@,
    {
        let mut i: usize = 0;
        while i < self.structs.len()
            invariant
                i <= self.structs@.len(),
                forall|k: int| 0 <= k < i ==> self.structs@[k].0@ != struct_name@,
            decreases self.structs@.len() - i,
        {
            if str_eq(self.structs[i].0.as_str(), struct_name) {
                return i;
            }
            i = i + 1;
        }
        proof {
            let w = choose|k: int| 0 <= k < self.structs@.len() && self.structs@[k].0@
                == struct_name@;
            assert(false);
        }
        unreached()
    }

    /// Appends a field to a registered struct's layout.
    ///
    /// The struct is guaranteed registered because registration happens in
    /// one pass before any field is added, and the field name is guaranteed
    /// new because the type checker has rejected duplicates.
    pub fn add_field(&mut self, struct_name: &str, field_name: &str, typ: &Type)
        requires
            old(self).wf(),
            old(self).spec_contains_struct(struct_name@),
            !old(self).spec_info_of(struct_name@).spec_contains_field(field_name@),
        ensures
            final(self).wf(),
            final(self).structs@.len() == old(self).structs@.len(),
            forall|k: int|
                0 <= k < old(self).structs@.len() && k != old(self).spec_struct_index(
                    struct_name@,
                ) ==> final(self).structs@[k] == old(self).structs@[k],
            forall|k: int|
                0 <= k < old(self).structs@.len() ==> final(self).structs@[k].0 == old(
                    self,
                ).structs@[k].0,
            forall|n: Seq<char>|
                final(self).spec_contains_struct(n) == old(self).spec_contains_struct(n),
            final(self).spec_struct_index(struct_name@) == old(self).spec_struct_index(
                struct_name@,
            ),
            ({
                let pre = old(self).spec_info_of(struct_name@).fields@;
                let post = final(self).spec_info_of(struct_name@).fields@;
                &&& post.len() == pre.len() + 1
                &&& (forall|k: int| 0 <= k < pre.len() ==> post[k] == pre[k])
                &&& post.last().0@ == field_name@
                &&& post.last().1.matches(*typ)
                &&& (!(*typ is Arr) ==> post.last().1 == *typ)
            }),
    {
        let idx = self.find_struct(struct_name);
        proof {
            let c = self.spec_struct_index(struct_name@);
            assert(0 <= c < self.structs@.len() && self.structs@[c].0@ == struct_name@);
            assert(c == idx);
        }
        let mut entry = self.structs.remove(idx);
        entry.1.add_field(field_name, typ);
        self.structs.insert(idx, entry);
        proof {
            let pre = old(self).structs@;
            let post = self.structs@;
            assert(forall|k: int| 0 <= k < pre.len() && k != idx ==> post[k] == pre[k]);
            assert(post[idx as int].0 == pre[idx as int].0);
            assert forall|n: Seq<char>| #[trigger]
                self.spec_contains_struct(n) implies old(self).spec_contains_struct(n) by {
                let i = choose|i: int| 0 <= i < post.len() && post[i].0@ == n;
                assert(pre[i].0@ == n);
            }
            assert forall|n: Seq<char>| #[trigger]
                old(self).spec_contains_struct(n) implies self.spec_contains_struct(n) by {
                let i = choose|i: int| 0 <= i < pre.len() && pre[i].0@ == n;
                assert(post[i].0@ == n);
            }
            let c2 = self.spec_struct_index(struct_name@);
            assert(0 <= c2 < post.len() && post[c2].0@ == struct_name@);
            assert(c2 == idx);
        }
    }

    /// Returns the layout registered under a name; valid only after the
    /// registration pass completes.
    pub fn get_struct_info(&self, struct_name: &str) -> (r: &ClassInfo)
        requires
            self.spec_contains_struct(struct_name@),
        ensures
            self.wf() ==> *r == self.spec_info_of(struct_name@),
            self.wf() ==> r.wf(),
    {
        let idx = self.find_struct(struct_name);
        proof {
            if self.wf() {
                let c = self.spec_struct_index(struct_name@);
                assert(0 <= c < self.structs@.len() && self.structs@[c].0@ == struct_name@);
                assert(c == idx);
            }
        }
        &self.structs[idx].1
    }
}

} // verus!

verus! {

// ---------------------------------------------------------------------------
// Emission order: Kahn-style topological sort of the by-value containment
// graph.
// ---------------------------------------------------------------------------

/// Class names are pairwise distinct.
pub open spec fn class_names_unique(classes: Seq<ClassNode>) -> bool {
    forall|i: int, j: int|
        0 <= i < j < classes.len() ==> classes[i].name@ != classes[j].name@
}

/// Every by-value struct field names a declared class.
pub open spec fn classes_closed(classes: Seq<ClassNode>) -> bool {
    forall|i: int, f: int|
        0 <= i < classes.len() && 0 <= f < classes[i].fields@.len()
            && (#[trigger] classes[i].fields@[f]).type_def.typ is Struct
            ==> exists|j: int|
                0 <= j < classes.len() && (#[trigger] classes[j].name)@
                    == classes[i].fields@[f].type_def.typ.spec_struct_name()
}

/// Class `i` contains class `j` by value.
pub open spec fn dep_edge(classes: Seq<ClassNode>, i: int, j: int) -> bool {
    &&& 0 <= i < classes.len()
    &&& 0 <= j < classes.len()
    &&& exists|f: int|
        0 <= f < classes[i].fields@.len() && (#[trigger] classes[i].fields@[f]).type_def.typ
            is Struct && classes[i].fields@[f].type_def.typ.spec_struct_name()
            == classes[j].name@
}

/// Containment seen only through the first `f` fields of class `i`.
pub open spec fn dep_edge_upto(classes: Seq<ClassNode>, i: int, j: int, f: int) -> bool {
    &&& 0 <= i < classes.len()
    &&& 0 <= j < classes.len()
    &&& exists|g: int|
        0 <= g < f && g < classes[i].fields@.len() && (#[trigger] classes[i].fields@[g]).type_def.typ
            is Struct && classes[i].fields@[g].type_def.typ.spec_struct_name()
            == classes[j].name@
}

/// A ranking that places every struct strictly above everything it contains.
pub open spec fn edges_ranked(classes: Seq<ClassNode>, rank: Map<int, int>) -> bool {
    forall|i: int, j: int| #[trigger] dep_edge(classes, i, j) ==> rank[j] < rank[i]
}

/// The containment graph has no cycle.
pub open spec fn acyclic(classes: Seq<ClassNode>) -> bool {
    exists|rank: Map<int, int>| edges_ranked(classes, rank)
}

/// A ranking against the index-level dependency lists.
pub open spec fn deps_ranked(deps: Seq<Vec<usize>>, rank: Map<int, int>) -> bool {
    forall|i: int, j: usize|
        0 <= i < deps.len() && (#[trigger] deps[i]@.contains(j)) ==> rank[j as int] < rank[i]
}

/// Well-formed dependency lists: one list per node, entries in range,
/// no entry repeated.
pub open spec fn deps_wf(deps: Seq<Vec<usize>>) -> bool {
    &&& forall|i: int| 0 <= i < deps.len() ==> (#[trigger] deps[i])@.no_duplicates()
    &&& forall|i: int, k: int|
        0 <= i < deps.len() && 0 <= k < deps[i]@.len() ==> (#[trigger] deps[i]@[k]) < deps.len()
}

/// The position of `v` in an order that contains it.
pub open spec fn seq_pos(order: Seq<usize>, v: int) -> int {
    choose|q: int| 0 <= q < order.len() && order[q] == v
}

/// The dependencies of one node not yet marked processed.
pub open spec fn unproc_set(l: Seq<usize>, processed: Seq<bool>) -> Set<usize> {
    l.to_set().filter(|x: usize| !processed[x as int])
}

/// Finds the first class of that name.
pub fn find_class(classes: &Vec<ClassNode>, name: &str) -> (r: Option<usize>)
    ensures
        match r {
            Option::Some(i) => i < classes@.len() && classes@[i as int].name@ == name@,
            Option::None => forall|k: int| 0 <= k < classes@.len() ==> classes@[k].name@ != name@,
        },
{
    let mut i: usize = 0;
    while i < classes.len()
        invariant
            i <= classes@.len(),
            forall|k: int| 0 <= k < i ==> classes@[k].name@ != name@,
        decreases classes@.len() - i,
    {
        if str_eq(classes[i].name.as_str(), name) {
            return Option::Some(i);
        }
        i = i + 1;
    }
    Option::None
}

/// Whether an index list already holds `x`.
fn contains_idx(v: &Vec<usize>, x: usize) -> (r: bool)
    ensures
        r == v@.contains(x),
{
    let mut i: usize = 0;
    while i < v.len()
        invariant
            i <= v@.len(),
            forall|k: int| 0 <= k < i ==> v@[k] != x,
        decreases v@.len() - i,
    {
        if v[i] == x {
            return true;
        }
        i = i + 1;
    }
    proof {
        assert(!v@.contains(x));
    }
    false
}

/// Overwrites one element of a vector.
fn vec_set<T>(v: &mut Vec<T>, i: usize, val: T)
    requires
        i < old(v)@.len(),
    ensures
        final(v)@ == old(v)@.update(i as int, val),
{
    v.remove(i);
    v.insert(i, val);
    proof {
        assert(v@ =~= old(v)@.update(i as int, val));
    }
}

/// Builds the by-value dependency lists: `deps[i]` holds every class index
/// that class `i` contains by value, once each.
fn build_deps(classes: &Vec<ClassNode>) -> (deps: Vec<Vec<usize>>)
    requires
        class_names_unique(classes@),
        classes_closed(classes@),
    ensures
        deps@.len() == classes@.len(),
        deps_wf(deps@),
        forall|i: int, j: usize|
            0 <= i < classes@.len() && j < classes@.len() ==> ((#[trigger] deps@[i]@.contains(j))
                <==> dep_edge(classes@, i, j as int)),
{
    let n = classes.len();
    let mut deps: Vec<Vec<usize>> = Vec::new();
    let mut i: usize = 0;
    while i < n
        invariant
            n == classes@.len(),
            i <= n,
            deps@.len() == i,
            forall|a: int| 0 <= a < i ==> (#[trigger] deps@[a])@.no_duplicates(),
            forall|a: int, k: int|
                0 <= a < i && 0 <= k < deps@[a]@.len() ==> (#[trigger] deps@[a]@[k]) < n,
            forall|a: int, j: usize|
                0 <= a < i && j < n ==> ((#[trigger] deps@[a]@.contains(j)) <==> dep_edge(
                    classes@,
                    a,
                    j as int,
                )),
        decreases n - i,
    {
        let mut di: Vec<usize> = Vec::new();
        let nf = classes[i].fields.len();
        let mut f: usize = 0;
        while f < nf
            invariant
                i < n,
                nf == classes@[i as int].fields@.len(),
                f <= nf,
                di@.no_duplicates(),
                forall|k: int| 0 <= k < di@.len() ==> (#[trigger] di@[k]) < n,
                forall|j: usize|
                    j < n ==> ((#[trigger] di@.contains(j)) <==> dep_edge_upto(
                        classes@,
                        i as int,
                        j as int,
                        f as int,
                    )),
            decreases nf - f,
        {
            let ft = &classes[i].fields[f].type_def.typ;
            if ft.is_struct() {
                let sname = ft.get_struct_name();
                match find_class(classes, sname.as_str()) {
                    Option::Some(j) => {
                        let ghost pre = di@;
                        let already = contains_idx(&di, j);
                        if !already {
                            di.push(j);
                        }
                        proof {
                            assert forall|v: usize|
                                v < n implies ((#[trigger] di@.contains(v)) <==> dep_edge_upto(
                                classes@,
                                i as int,
                                v as int,
                                f as int + 1,
                            )) by {
                                if di@.contains(v) {
                                    let w = choose|w: int| 0 <= w < di@.len() && di@[w] == v;
                                    if w < pre.len() {
                                        assert(pre[w] == v);
                                        assert(pre.contains(v));
                                        assert(dep_edge_upto(classes@, i as int, v as int, f as int));
                                    } else {
                                        assert(v == j);
                                        assert(classes@[i as int].fields@[f as int].type_def.typ
                                            is Struct);
                                        assert(classes@[i as int].fields@[
                                            f as int].type_def.typ.spec_struct_name()
                                            == classes@[j as int].name@);
                                    }
                                }
                                if dep_edge_upto(classes@, i as int, v as int, f as int + 1) {
                                    let g = choose|g: int|
                                        0 <= g < f as int + 1 && g < classes@[i as int].fields@.len()
                                            && (#[trigger] classes@[i as int].fields@[g]).type_def.typ
                                            is Struct && classes@[i as int].fields@[
                                            g].type_def.typ.spec_struct_name() == classes@[
                                            v as int].name@;
                                    if g < f as int {
                                        assert(dep_edge_upto(classes@, i as int, v as int, f as int));
                                        assert(pre.contains(v));
                                        let w = choose|w: int|
                                            0 <= w < pre.len() && pre[w] == v;
                                        assert(di@[w] == v);
                                        assert(di@.contains(v));
                                    } else {
                                        // the edge is this very field
                                        assert(classes@[v as int].name@ == classes@[
                                            j as int].name@);
                                        if v != j {
                                            assert(classes@[v as int].name@ != classes@[
                                                j as int].name@);
                                        }
                                        assert(v == j);
                                        if already {
                                            assert(di@.contains(j));
                                        } else {
                                            assert(di@[pre.len() as int] == j);
                                            assert(di@.contains(j));
                                        }
                                    }
                                }
                            }
                        }
                    },
                    Option::None => {
                        proof {
                            assert(classes@[i as int].fields@[f as int].type_def.typ is Struct);
                            assert(false);
                        }
                        unreached()
                    },
                }
            } else {
                proof {
                    assert forall|v: usize|
                        v < n implies ((#[trigger] di@.contains(v)) <==> dep_edge_upto(
                        classes@,
                        i as int,
                        v as int,
                        f as int + 1,
                    )) by {
                        if dep_edge_upto(classes@, i as int, v as int, f as int + 1) {
                            let g = choose|g: int|
                                0 <= g < f as int + 1 && g < classes@[i as int].fields@.len() && (
                                #[trigger] classes@[i as int].fields@[g]).type_def.typ is Struct
                                    && classes@[i as int].fields@[
                                g].type_def.typ.spec_struct_name() == classes@[v as int].name@;
                            assert(g < f as int);
                        }
                    }
                }
            }
            f = f + 1;
        }
        proof {
            assert forall|j: usize|
                j < n implies ((#[trigger] di@.contains(j)) <==> dep_edge(
                classes@,
                i as int,
                j as int,
            )) by {
                assert(di@.contains(j) <==> dep_edge_upto(classes@, i as int, j as int, nf as int));
            }
        }
        deps.push(di);
        i = i + 1;
    }
    deps
}

} // verus!

verus! {

use vstd::seq_lib::*;
use vstd::set_lib::*;
use vstd::set::axiom_set_remove_len;

// ---------------------------------------------------------------------------
// Supporting lemmas for the sort.
// ---------------------------------------------------------------------------

/// The order seen as mathematical integers.
pub open spec fn as_ints(s: Seq<usize>) -> Seq<int> {
    s.map_values(|v: usize| v as int)
}

/// A duplicate-free sequence of indices below `n` that misses one index has
/// fewer than `n` elements.
proof fn lemma_distinct_missing_bound(order: Seq<usize>, n: int, missing: usize)
    requires
        order.no_duplicates(),
        forall|k: int| 0 <= k < order.len() ==> (#[trigger] order[k]) < n,
        missing < n,
        !order.contains(missing),
    ensures
        order.len() < n,
{
    let m = as_ints(order);
    assert(m.len() == order.len());
    assert(forall|k: int| 0 <= k < m.len() ==> m[k] == (#[trigger] order[k]) as int);
    assert(m.no_duplicates()) by {
        assert forall|p: int, q: int| 0 <= p < q < m.len() implies m[p] != m[q] by {
            assert(order[p] != order[q]);
        }
    }
    m.unique_seq_to_set();
    let range = set_int_range(0, n);
    lemma_int_range(0, n);
    let target = range.remove(missing as int);
    axiom_set_remove_len(range, missing as int);
    assert(m.to_set().subset_of(target)) by {
        assert forall|v: int| m.to_set().contains(v) implies target.contains(v) by {
            assert(m.contains(v));
            let k = choose|k: int| 0 <= k < m.len() && m[k] == v;
            assert(order[k] as int == v);
            if v == missing as int {
                assert(order[k] == missing);
                assert(false);
            }
        }
    }
    lemma_len_subset(m.to_set(), target);
}

/// A duplicate-free sequence of indices below `n` has at most `n` elements.
proof fn lemma_distinct_le_bound(order: Seq<usize>, n: int)
    requires
        order.no_duplicates(),
        forall|k: int| 0 <= k < order.len() ==> (#[trigger] order[k]) < n,
        n >= 0,
    ensures
        order.len() <= n,
{
    let m = as_ints(order);
    assert(forall|k: int| 0 <= k < m.len() ==> m[k] == (#[trigger] order[k]) as int);
    assert(m.no_duplicates()) by {
        assert forall|p: int, q: int| 0 <= p < q < m.len() implies m[p] != m[q] by {
            assert(order[p] != order[q]);
        }
    }
    m.unique_seq_to_set();
    let range = set_int_range(0, n);
    lemma_int_range(0, n);
    assert(m.to_set().subset_of(range)) by {
        assert forall|v: int| m.to_set().contains(v) implies range.contains(v) by {
            assert(m.contains(v));
            let k = choose|k: int| 0 <= k < m.len() && m[k] == v;
            assert(order[k] as int == v);
        }
    }
    lemma_len_subset(m.to_set(), range);
}

/// A sequence containing every index below `n` has at least `n` elements.
proof fn lemma_covering_bound(order: Seq<usize>, n: int)
    requires
        0 <= n <= usize::MAX,
        forall|v: usize| v < n ==> order.contains(v),
    ensures
        order.len() >= n,
{
    let m = as_ints(order);
    assert(forall|k: int| 0 <= k < m.len() ==> m[k] == (#[trigger] order[k]) as int);
    let range = set_int_range(0, n);
    lemma_int_range(0, n);
    seq_to_set_is_finite::<int>(m);
    m.lemma_cardinality_of_set();
    assert(range.subset_of(m.to_set())) by {
        assert forall|v: int| range.contains(v) implies m.to_set().contains(v) by {
            let u = v as usize;
            assert(u < n);
            assert(order.contains(u));
            let k = choose|k: int| 0 <= k < order.len() && order[k] == u;
            assert(m[k] == v);
            assert(m.contains(v));
        }
    }
    lemma_len_subset(range, m.to_set());
}

/// The unprocessed-dependency set is finite.
proof fn lemma_unproc_finite(l: Seq<usize>, processed: Seq<bool>)
    ensures
        unproc_set(l, processed).finite(),
{
    seq_to_set_is_finite::<usize>(l);
    l.to_set().lemma_len_filter(|x: usize| !processed[x as int]);
}

/// With nothing processed, every dependency is unprocessed.
proof fn lemma_unproc_init(l: Seq<usize>, processed: Seq<bool>)
    requires
        l.no_duplicates(),
        forall|i: int| 0 <= i < processed.len() ==> !processed[i],
        forall|k: int| 0 <= k < l.len() ==> (#[trigger] l[k]) < processed.len(),
    ensures
        unproc_set(l, processed).len() == l.len(),
{
    l.unique_seq_to_set();
    assert(unproc_set(l, processed) =~= l.to_set()) by {
        assert forall|v: usize| l.to_set().contains(v) implies unproc_set(l, processed).contains(
            v,
        ) by {
            assert(l.contains(v));
            let k = choose|k: int| 0 <= k < l.len() && l[k] == v;
            assert(v < processed.len());
        }
    }
}

/// Marking one node processed removes exactly it from a node's
/// unprocessed-dependency set.
proof fn lemma_unproc_flip(l: Seq<usize>, pre: Seq<bool>, x: usize)
    requires
        x < pre.len(),
        !pre[x as int],
        forall|k: int| 0 <= k < l.len() ==> (#[trigger] l[k]) < pre.len(),
    ensures
        l.contains(x) ==> unproc_set(l, pre.update(x as int, true)).len() == unproc_set(
            l,
            pre,
        ).len() - 1,
        !l.contains(x) ==> unproc_set(l, pre.update(x as int, true)) == unproc_set(l, pre),
{
    let post = pre.update(x as int, true);
    let sp = unproc_set(l, pre);
    let sq = unproc_set(l, post);
    lemma_unproc_finite(l, pre);
    lemma_unproc_finite(l, post);
    assert forall|v: usize| sq.contains(v) == sp.remove(x).contains(v) by {
        if l.to_set().contains(v) {
            assert(l.contains(v));
            let k = choose|k: int| 0 <= k < l.len() && l[k] == v;
            assert(v < pre.len());
            if v == x {
                assert(post[v as int]);
            } else {
                assert(post[v as int] == pre[v as int]);
            }
        } else {
            assert(!sq.contains(v));
            assert(!sp.contains(v));
        }
    }
    assert(sq =~= sp.remove(x));
    if l.contains(x) {
        assert(sp.contains(x)) by {
            assert(l.to_set().contains(x));
        }
        axiom_set_remove_len(sp, x);
    } else {
        assert(sq =~= sp) by {
            assert(!l.to_set().contains(x));
        }
    }
}

/// Every finite nonempty set of candidates has a rank-minimal element.
proof fn lemma_exists_min_rank(s: Set<int>, rank: Map<int, int>)
    requires
        s.finite(),
        s.len() > 0,
    ensures
        exists|m: int|
            s.contains(m) && (forall|y: int| #[trigger] s.contains(y) ==> rank[m] <= rank[y]),
    decreases s.len(),
{
    let x = s.choose();
    assert(s.contains(x));
    let rest = s.remove(x);
    axiom_set_remove_len(s, x);
    if rest.len() == 0 {
        assert forall|y: int| #[trigger] s.contains(y) implies rank[x] <= rank[y] by {
            if y != x {
                assert(rest.contains(y));
                axiom_set_remove_len(rest, y);
                assert(false);
            }
        }
        assert(s.contains(x) && (forall|y: int| #[trigger] s.contains(y) ==> rank[x] <= rank[y]));
    } else {
        lemma_exists_min_rank(rest, rank);
        let m0 = choose|m: int|
            rest.contains(m) && (forall|y: int| #[trigger] rest.contains(y) ==> rank[m] <= rank[y]);
        if rank[x] <= rank[m0] {
            assert forall|y: int| #[trigger] s.contains(y) implies rank[x] <= rank[y] by {
                if y != x {
                    assert(rest.contains(y));
                }
            }
            assert(s.contains(x) && (forall|y: int|
                #[trigger] s.contains(y) ==> rank[x] <= rank[y]));
        } else {
            assert forall|y: int| #[trigger] s.contains(y) implies rank[m0] <= rank[y] by {
                if y != x {
                    assert(rest.contains(y));
                }
            }
            assert(s.contains(m0) && (forall|y: int|
                #[trigger] s.contains(y) ==> rank[m0] <= rank[y]));
        }
    }
}

} // verus!

verus! {

use vstd::set::axiom_set_remove_len as set_remove_len;
use vstd::set_lib::lemma_set_subset_finite;

/// Kahn-style topological sort over index-level dependency lists: repeatedly
/// removes zero-remaining-dependency nodes, decrementing each dependent as
/// its dependency is processed.
///
/// Succeeds exactly when some ranking orders every node above its
/// dependencies; the order it returns visits every dependency before its
/// dependent.
pub fn kahn(deps: &Vec<Vec<usize>>) -> (r: Result<Vec<usize>, CodegenError>)
    requires
        deps_wf(deps@),
    ensures
        match r {
            Result::Ok(order) => {
                &&& order@.len() == deps@.len()
                &&& order@.no_duplicates()
                &&& (forall|k: int| 0 <= k < order@.len() ==> (#[trigger] order@[k]) < deps@.len())
                &&& (forall|v: usize| v < deps@.len() ==> order@.contains(v))
                &&& (forall|p: int, j: usize|
                    0 <= p < order@.len() && (#[trigger] deps@[order@[p] as int]@.contains(j))
                        ==> exists|q: int| 0 <= q < p && order@[q] == j)
            },
            Result::Err(e) => {
                &&& e == CodegenError::CyclicDependency
                &&& (forall|rank: Map<int, int>| !deps_ranked(deps@, rank))
            },
        },
{
    let n = deps.len();
    let mut processed: Vec<bool> = Vec::new();
    let mut remaining: Vec<usize> = Vec::new();
    let mut queue: Vec<usize> = Vec::new();
    let mut order: Vec<usize> = Vec::new();

    let mut i: usize = 0;
    while i < n
        invariant
            i <= n,
            processed@.len() == i,
            remaining@.len() == i,
            forall|k: int| 0 <= k < i ==> !processed@[k],
            forall|k: int| 0 <= k < i ==> remaining@[k] == deps@[k]@.len(),
        decreases n - i,
    {
        processed.push(false);
        remaining.push(deps[i].len());
        i = i + 1;
    }

    let mut i: usize = 0;
    while i < n
        invariant
            i <= n,
            queue@.no_duplicates(),
            forall|k: int| 0 <= k < queue@.len() ==> (#[trigger] queue@[k]) < i,
            forall|k: int|
                0 <= k < queue@.len() ==> deps@[#[trigger] queue@[k] as int]@.len() == 0,
            forall|v: usize| v < i && deps@[v as int]@.len() == 0 ==> queue@.contains(v),
        decreases n - i,
    {
        if deps[i].len() == 0 {
            proof {
                assert(!queue@.contains(i));
                let ghost q0 = queue@;
                assert(q0.push(i).drop_last() =~= q0);
            }
            let ghost q0 = queue@;
            queue.push(i);
            proof {
                assert forall|v: usize|
                    v < i + 1 && deps@[v as int]@.len() == 0 implies queue@.contains(v) by {
                    if v < i {
                        assert(q0.contains(v));
                        let k = choose|k: int| 0 <= k < q0.len() && q0[k] == v;
                        assert(queue@[k] == v);
                    } else {
                        assert(queue@[queue@.len() - 1] == i);
                    }
                }
            }
        }
        i = i + 1;
    }

    proof {
        assert forall|v: usize|
            v < n && !processed@[v as int] implies remaining@[v as int] == unproc_set(
            deps@[v as int]@,
            processed@,
        ).len() by {
            lemma_unproc_init(deps@[v as int]@, processed@);
        }
    }

    while queue.len() > 0
        invariant
            n == deps@.len(),
            processed@.len() == n,
            remaining@.len() == n,
            order@.no_duplicates(),
            forall|k: int| 0 <= k < order@.len() ==> (#[trigger] order@[k]) < n,
            forall|v: usize| v < n ==> (processed@[v as int] <==> order@.contains(v)),
            forall|p: int, j: usize|
                0 <= p < order@.len() && (#[trigger] deps@[order@[p] as int]@.contains(j))
                    ==> exists|q: int| 0 <= q < p && order@[q] == j,
            queue@.no_duplicates(),
            forall|k: int|
                0 <= k < queue@.len() ==> (#[trigger] queue@[k]) < n && !processed@[queue@[k] as int]
                    && remaining@[queue@[k] as int] == 0,
            forall|v: usize|
                v < n && !processed@[v as int] && remaining@[v as int] == 0 ==> queue@.contains(v),
            forall|v: usize|
                v < n && !processed@[v as int] ==> remaining@[v as int] == unproc_set(
                    deps@[v as int]@,
                    processed@,
                ).len(),
        decreases n - order@.len(),
    {
        let ghost q0 = queue@;
        let ghost ord0 = order@;
        let ghost proc0 = processed@;
        let x = match queue.pop() {
            Option::Some(v) => v,
            Option::None => unreached(),
        };
        proof {
            assert(q0[q0.len() - 1] == x);
            assert(x < n && !proc0[x as int] && remaining@[x as int] == 0);
            lemma_distinct_missing_bound(ord0, n as int, x);
            // every dependency of x is already processed
            let s = unproc_set(deps@[x as int]@, proc0);
            lemma_unproc_finite(deps@[x as int]@, proc0);
            assert(s.len() == 0);
            assert forall|j: usize| deps@[x as int]@.contains(j) implies proc0[j as int] by {
                if !proc0[j as int] {
                    assert(s.contains(j)) by {
                        assert(deps@[x as int]@.to_set().contains(j));
                    }
                    set_remove_len(s, j);
                    assert(false);
                }
            }
        }
        order.push(x);
        vec_set(&mut processed, x, true);
        proof {
            // processed/order correspondence
            assert forall|v: usize|
                v < n implies (processed@[v as int] <==> order@.contains(v)) by {
                if v == x {
                    assert(order@[order@.len() - 1] == x);
                } else {
                    if order@.contains(v) {
                        let w = choose|w: int| 0 <= w < order@.len() && order@[w] == v;
                        assert(w < ord0.len());
                        assert(ord0[w] == v);
                        assert(ord0.contains(v));
                    }
                    if ord0.contains(v) {
                        let w = choose|w: int| 0 <= w < ord0.len() && ord0[w] == v;
                        assert(order@[w] == v);
                    }
                }
            }
            // distinctness
            assert(!ord0.contains(x));
            assert(order@.no_duplicates()) by {
                assert forall|p: int, q: int|
                    0 <= p < q < order@.len() implies order@[p] != order@[q] by {
                    if q < ord0.len() {
                        assert(ord0[p] != ord0[q]);
                    } else {
                        assert(order@[q] == x);
                        assert(ord0[p] == order@[p]);
                        if order@[p] == x {
                            assert(ord0.contains(x));
                        }
                    }
                }
            }
            // order edge property for the new position
            assert forall|p: int, j: usize|
                0 <= p < order@.len() && (#[trigger] deps@[order@[p] as int]@.contains(j)) implies
                exists|q: int| 0 <= q < p && order@[q] == j by {
                if p < ord0.len() {
                    assert(deps@[ord0[p] as int]@.contains(j));
                    let q = choose|q: int| 0 <= q < p && ord0[q] == j;
                    assert(order@[q] == j);
                } else {
                    assert(order@[p] == x);
                    assert(proc0[j as int]);
                    assert(ord0.contains(j));
                    let q = choose|q: int| 0 <= q < ord0.len() && ord0[q] == j;
                    assert(order@[q] == j);
                }
            }
            // queue facts after the pop
            assert forall|k: int|
                0 <= k < queue@.len() implies (#[trigger] queue@[k]) < n && !processed@[queue@[k] as int]
                    && remaining@[queue@[k] as int] == 0 by {
                assert(queue@[k] == q0[k]);
                assert(q0[k] != x) by {
                    if q0[k] == x {
                        assert(q0[k] == q0[q0.len() - 1]);
                        assert(k != q0.len() - 1);
                    }
                }
            }
        }
        proof {
            assert forall|v: usize|
                v < n && !processed@[v as int] && unproc_set(deps@[v as int]@, proc0).len()
                    == 0 implies queue@.contains(v) by {
                assert(v != x);
                assert(!proc0[v as int]);
                assert(remaining@[v as int] == 0);
                assert(q0.contains(v));
                let k = choose|k: int| 0 <= k < q0.len() && q0[k] == v;
                assert(k != q0.len() - 1);
                assert(queue@[k] == v);
            }
        }
        // decrement every unprocessed dependent of x
        let mut t: usize = 0;
        while t < n
            invariant
                t <= n,
                n == deps@.len(),
                remaining@.len() == n,
                processed@ == proc0.update(x as int, true),
                x < n,
                !proc0[x as int],
                queue@.no_duplicates(),
                forall|k: int|
                    0 <= k < queue@.len() ==> (#[trigger] queue@[k]) < n && !processed@[queue@[k] as int]
                        && remaining@[queue@[k] as int] == 0,
                forall|v: usize|
                    v < n && !processed@[v as int] && t <= v ==> remaining@[v as int] == unproc_set(
                        deps@[v as int]@,
                        proc0,
                    ).len(),
                forall|v: usize|
                    v < n && !processed@[v as int] && v < t ==> remaining@[v as int] == unproc_set(
                        deps@[v as int]@,
                        processed@,
                    ).len(),
                forall|v: usize|
                    v < n && !processed@[v as int] && v < t && remaining@[v as int] == 0
                        ==> queue@.contains(v),
                forall|v: usize|
                    v < n && !processed@[v as int] && t <= v && unproc_set(
                        deps@[v as int]@,
                        proc0,
                    ).len() == 0 ==> queue@.contains(v),
            decreases n - t,
        {
            let is_done = processed[t];
            if !is_done {
                proof {
                    lemma_unproc_flip(deps@[t as int]@, proc0, x);
                }
                let has_x = contains_idx(&deps[t], x);
                if has_x {
                    proof {
                        assert(remaining@[t as int] >= 1);
                        assert(!queue@.contains(t)) by {
                            if queue@.contains(t) {
                                let k = choose|k: int| 0 <= k < queue@.len() && queue@[k] == t;
                                assert(remaining@[queue@[k] as int] == 0);
                            }
                        }
                    }
                    let cur = remaining[t];
                    let newr = cur - 1;
                    vec_set(&mut remaining, t, newr);
                    if newr == 0 {
                        let ghost qb = queue@;
                        queue.push(t);
                        proof {
                            assert forall|v: usize|
                                v < n && !processed@[v as int] && v < t + 1 && remaining@[v as int]
                                    == 0 implies queue@.contains(v) by {
                                if v < t {
                                    assert(qb.contains(v));
                                    let k = choose|k: int| 0 <= k < qb.len() && qb[k] == v;
                                    assert(queue@[k] == v);
                                } else {
                                    assert(queue@[queue@.len() - 1] == t);
                                }
                            }
                            assert forall|v: usize|
                                v < n && !processed@[v as int] && t + 1 <= v && unproc_set(
                                    deps@[v as int]@,
                                    proc0,
                                ).len() == 0 implies queue@.contains(v) by {
                                assert(qb.contains(v));
                                let k = choose|k: int| 0 <= k < qb.len() && qb[k] == v;
                                assert(queue@[k] == v);
                            }
                        }
                    }
                }
            }
            t = t + 1;
        }
        proof {
            assert forall|v: usize|
                v < n && !processed@[v as int] && remaining@[v as int] == 0 implies
                queue@.contains(v) by {}
        }
    }

    if order.len() == n {
        proof {
            assert forall|v: usize| v < n implies order@.contains(v) by {
                if !order@.contains(v) {
                    lemma_distinct_missing_bound(order@, n as int, v);
                }
            }
        }
        Result::Ok(order)
    } else {
        proof {
            lemma_distinct_le_bound(order@, n as int);
            assert(exists|v: usize| v < n && !processed@[v as int]) by {
                if forall|v: usize| v < n ==> processed@[v as int] {
                    assert forall|v: usize| v < n implies order@.contains(v) by {}
                    lemma_covering_bound(order@, n as int);
                    assert(false);
                }
            }
            let w = choose|v: usize| v < n && !processed@[v as int];
            assert forall|rank: Map<int, int>| !deps_ranked(deps@, rank) by {
                if deps_ranked(deps@, rank) {
                    let u = Set::new(|v: int| 0 <= v < n && !processed@[v]);
                    lemma_int_range(0, n as int);
                    lemma_set_subset_finite(set_int_range(0, n as int), u);
                    assert(u.contains(w as int));
                    set_remove_len(u, w as int);
                    assert(u.len() > 0);
                    lemma_exists_min_rank(u, rank);
                    let m = choose|m: int|
                        u.contains(m) && (forall|y: int|
                            #[trigger] u.contains(y) ==> rank[m] <= rank[y]);
                    let mu = m as usize;
                    assert(!processed@[m]);
                    assert(remaining@[m] != 0) by {
                        if remaining@[m] == 0 {
                            assert(queue@.contains(mu));
                            assert(queue@.len() == 0);
                            assert(false);
                        }
                    }
                    let s = unproc_set(deps@[m]@, processed@);
                    lemma_unproc_finite(deps@[m]@, processed@);
                    assert(s.len() != 0);
                    assert(exists|j: usize| s.contains(j)) by {
                        if forall|j: usize| !s.contains(j) {
                            assert(s =~= Set::<usize>::empty());
                            assert(false);
                        }
                    }
                    let j = choose|j: usize| s.contains(j);
                    assert(deps@[m]@.to_set().contains(j) && !processed@[j as int]);
                    assert(deps@[m]@.contains(j));
                    assert(j < n) by {
                        let k = choose|k: int| 0 <= k < deps@[m]@.len() && deps@[m]@[k] == j;
                        assert(deps@[m]@[k] < n);
                    }
                    assert(u.contains(j as int));
                    assert(rank[j as int] < rank[m]);
                    assert(rank[m] <= rank[j as int]);
                    assert(false);
                }
            }
        }
        Result::Err(CodegenError::CyclicDependency)
    }
}

} // verus!

verus! {

/// Computes the emission order of the struct declarations: every struct is
/// ordered strictly after every struct it contains by value.
///
/// Registration succeeds exactly when the by-value containment graph is
/// acyclic; a cyclic graph fails deterministically with
/// `CyclicDependency`.
pub fn dependency_order(classes: &Vec<ClassNode>) -> (r: Result<Vec<usize>, CodegenError>)
    requires
        class_names_unique(classes@),
        classes_closed(classes@),
    ensures
        (r is Ok) <==> acyclic(classes@),
        match r {
            Result::Ok(order) => {
                &&& order@.len() == classes@.len()
                &&& order@.no_duplicates()
                &&& (forall|k: int|
                    0 <= k < order@.len() ==> (#[trigger] order@[k]) < classes@.len())
                &&& (forall|v: usize| v < classes@.len() ==> order@.contains(v))
                &&& (forall|p: int, q: int|
                    0 <= p < order@.len() && 0 <= q < order@.len() && dep_edge(
                        classes@,
                        order@[p] as int,
                        order@[q] as int,
                    ) ==> q < p)
            },
            Result::Err(e) => e == CodegenError::CyclicDependency,
        },
{
    let deps = build_deps(classes);
    let n = classes.len();
    match kahn(&deps) {
        Result::Ok(order) => {
            proof {
                assert forall|p: int, q: int|
                    0 <= p < order@.len() && 0 <= q < order@.len() && dep_edge(
                        classes@,
                        order@[p] as int,
                        order@[q] as int,
                    ) implies q < p by {
                    let a = order@[p];
                    let b = order@[q];
                    assert(deps@[a as int]@.contains(b));
                    let q2 = choose|q2: int| 0 <= q2 < p && order@[q2] == b;
                    if q2 != q {
                        if q2 < q {
                            assert(order@[q2] != order@[q]);
                        } else {
                            assert(order@[q] != order@[q2]);
                        }
                        assert(false);
                    }
                }
                let rank = Map::<int, int>::new(|i: int| true, |i: int| seq_pos(order@, i));
                assert(edges_ranked(classes@, rank)) by {
                    assert forall|i: int, j: int| #[trigger]
                        dep_edge(classes@, i, j) implies rank[j] < rank[i] by {
                        assert(0 <= i < n && 0 <= j < n);
                        assert(order@.contains(i as usize));
                        assert(order@.contains(j as usize));
                        let pi = seq_pos(order@, i);
                        assert(0 <= pi < order@.len() && order@[pi] as int == i) by {
                            let k = choose|k: int|
                                0 <= k < order@.len() && order@[k] == i as usize;
                            assert(order@[k] as int == i);
                        }
                        let pj = seq_pos(order@, j);
                        assert(0 <= pj < order@.len() && order@[pj] as int == j) by {
                            let k = choose|k: int|
                                0 <= k < order@.len() && order@[k] == j as usize;
                            assert(order@[k] as int == j);
                        }
                        assert(dep_edge(classes@, order@[pi] as int, order@[pj] as int));
                        assert(pj < pi);
                    }
                }
                assert(acyclic(classes@));
            }
            Result::Ok(order)
        },
        Result::Err(e) => {
            proof {
                assert(!acyclic(classes@)) by {
                    if acyclic(classes@) {
                        let rank = choose|rank: Map<int, int>| edges_ranked(classes@, rank);
                        assert(deps_ranked(deps@, rank)) by {
                            assert forall|i: int, j: usize|
                                0 <= i < deps@.len() && (#[trigger] deps@[i]@.contains(
                                    j,
                                )) implies rank[j as int] < rank[i] by {
                                assert(j < n) by {
                                    let k = choose|k: int|
                                        0 <= k < deps@[i]@.len() && deps@[i]@[k] == j;
                                    assert(deps@[i]@[k] < n);
                                }
                                assert(dep_edge(classes@, i, j as int));
                            }
                        }
                        assert(!deps_ranked(deps@, rank));
                        assert(false);
                    }
                }
            }
            Result::Err(e)
        },
    }
}

} // verus!
