//! Projections: the sets of fields that a query result has to expose.

use vstd::prelude::*;

verus! {

/// Identifier of one field of a model.
pub type FieldId = u64;

/// A set of field identifiers. No field is stored twice.
#[derive(Debug)]
pub struct ModelProjection {
    fields: Vec<FieldId>,
}

impl View for ModelProjection {
    type V = Set<FieldId>;

    closed spec fn view(&self) -> Set<FieldId> {
        self.fields@.to_set()
    }
}

/// The fields that occur in at least one of `parts`.
pub open spec fn union_of(parts: Seq<Set<FieldId>>) -> Set<FieldId> {
    Set::new(|f: FieldId| exists|i: int| 0 <= i < parts.len() && #[trigger] parts[i].contains(f))
}

impl ModelProjection {
    #[verifier::type_invariant]
    spec fn distinct(&self) -> bool {
        self.fields@.no_duplicates()
    }

    /// The projection without fields.
    pub fn empty() -> (p: Self)
        ensures
            p@ == Set::<FieldId>::empty(),
    {
        let p = ModelProjection { fields: Vec::new() };
        assert(p.fields@.to_set() =~= Set::<FieldId>::empty());
        p
    }

    /// The projection that holds exactly the fields listed, however often one
    /// is listed.
    pub fn new(fields: Vec<FieldId>) -> (p: Self)
        ensures
            p@ == fields@.to_set(),
    {
        let mut p = ModelProjection::empty();
        let mut i: usize = 0;
        assert(fields@.take(0).to_set() =~= Set::<FieldId>::empty());
        while i < fields.len()
            invariant
                i <= fields.len(),
                p@ == fields@.take(i as int).to_set(),
            decreases fields.len() - i,
        {
            p = p.insert(fields[i]);
            assert(fields@.take(i as int + 1) =~= fields@.take(i as int).push(fields@[i as int]));
            proof {
                fields@.take(i as int).lemma_push_to_set_commute(fields@[i as int]);
            }
            i = i + 1;
        }
        assert(fields@.take(i as int) =~= fields@);
        p
    }

    /// Whether `field` belongs to the projection.
    pub fn contains(&self, field: FieldId) -> (b: bool)
        ensures
            b == self@.contains(field),
    {
        let mut i: usize = 0;
        while i < self.fields.len()
            invariant
                i <= self.fields.len(),
                forall|j: int| 0 <= j < i ==> self.fields@[j] != field,
            decreases self.fields.len() - i,
        {
            if self.fields[i] == field {
                assert(self.fields@.contains(field));
                return true;
            }
            i = i + 1;
        }
        false
    }

    /// The projection with `field` added, unless it is there already.
    pub fn insert(self, field: FieldId) -> (p: Self)
        ensures
            p@ == self@.insert(field),
    {
        proof {
            use_type_invariant(&self);
        }
        if self.contains(field) {
            assert(self@.insert(field) =~= self@);
            self
        } else {
            let ghost before = self.fields@;
            let mut fields = self.fields;
            fields.push(field);
            proof {
                before.lemma_push_to_set_commute(field);
            }
            ModelProjection { fields }
        }
    }

    /// Number of fields in the projection.
    pub fn len(&self) -> (n: usize)
        ensures
            n == self@.len(),
            self@.finite(),
    {
        proof {
            use_type_invariant(self);
            self.fields@.unique_seq_to_set();
        }
        self.fields.len()
    }

    /// The fields of the projection, each once.
    pub fn fields(&self) -> (out: Vec<FieldId>)
        ensures
            out@.to_set() == self@,
            out@.no_duplicates(),
    {
        proof {
            use_type_invariant(self);
        }
        let out = self.fields.clone();
        assert(out@ =~= self.fields@);
        out
    }

    /// The projection with every field of `other` added.
    pub fn merge(self, other: &ModelProjection) -> (p: Self)
        ensures
            p@ == self@.union(other@),
    {
        let ghost start = self@;
        let mut p = self;
        let mut i: usize = 0;
        assert(other.fields@.take(0).to_set() =~= Set::<FieldId>::empty());
        assert(start.union(Set::<FieldId>::empty()) =~= start);
        while i < other.fields.len()
            invariant
                i <= other.fields.len(),
                p@ == start.union(other.fields@.take(i as int).to_set()),
            decreases other.fields.len() - i,
        {
            p = p.insert(other.fields[i]);
            assert(other.fields@.take(i as int + 1) =~= other.fields@.take(i as int).push(
                other.fields@[i as int],
            ));
            proof {
                other.fields@.take(i as int).lemma_push_to_set_commute(other.fields@[i as int]);
            }
            assert(start.union(other.fields@.take(i as int + 1).to_set()) =~= start.union(
                other.fields@.take(i as int).to_set(),
            ).insert(other.fields@[i as int]));
            i = i + 1;
        }
        assert(other.fields@.take(i as int) =~= other.fields@);
        p
    }

    /// Whether every field of `other` belongs to this projection.
    pub fn covers(&self, other: &ModelProjection) -> (b: bool)
        ensures
            b == other@.subset_of(self@),
    {
        let mut i: usize = 0;
        while i < other.fields.len()
            invariant
                i <= other.fields.len(),
                forall|j: int| 0 <= j < i ==> self@.contains(#[trigger] other.fields@[j]),
            decreases other.fields.len() - i,
        {
            if !self.contains(other.fields[i]) {
                assert(other@.contains(other.fields@[i as int]));
                return false;
            }
            i = i + 1;
        }
        assert forall|f: FieldId| other@.contains(f) implies self@.contains(f) by {
            let j = choose|j: int| 0 <= j < other.fields@.len() && other.fields@[j] == f;
            assert(self@.contains(other.fields@[j]));
        }
        true
    }

    /// Whether both projections hold the same fields.
    pub fn same_fields(&self, other: &ModelProjection) -> (b: bool)
        ensures
            b == (self@ == other@),
    {
        let b = self.covers(other) && other.covers(self);
        assert(b ==> self@ =~= other@);
        b
    }

    /// The union of all the projections given.
    pub fn union(projections: Vec<ModelProjection>) -> (u: Self)
        ensures
            u@ == union_of(projections@.map_values(|p: ModelProjection| p@)),
    {
        let mut u = ModelProjection::empty();
        let ghost parts = projections@.map_values(|p: ModelProjection| p@);
        let mut i: usize = 0;
        assert(union_of(parts.take(0)) =~= Set::<FieldId>::empty());
        while i < projections.len()
            invariant
                i <= projections.len(),
                parts == projections@.map_values(|p: ModelProjection| p@),
                u@ == union_of(parts.take(i as int)),
            decreases projections.len() - i,
        {
            let ghost before = u@;
            u = u.merge(&projections[i]);
            assert(u@ =~= union_of(parts.take(i as int + 1))) by {
                assert forall|f: FieldId| u@.contains(f) implies union_of(
                    parts.take(i as int + 1),
                ).contains(f) by {
                    if before.contains(f) {
                        let j = choose|j: int|
                            0 <= j < parts.take(i as int).len() && #[trigger] parts.take(
                                i as int,
                            )[j].contains(f);
                        assert(parts.take(i as int + 1)[j].contains(f));
                    } else {
                        assert(parts.take(i as int + 1)[i as int].contains(f));
                    }
                }
                assert forall|f: FieldId| union_of(parts.take(i as int + 1)).contains(
                    f,
                ) implies u@.contains(f) by {
                    let j = choose|j: int|
                        0 <= j < parts.take(i as int + 1).len() && #[trigger] parts.take(
                            i as int + 1,
                        )[j].contains(f);
                    if j < i {
                        assert(parts.take(i as int)[j].contains(f));
                    }
                }
            }
            i = i + 1;
        }
        assert(parts.take(i as int) =~= parts);
        u
    }
}

impl Clone for ModelProjection {
    fn clone(&self) -> (out: Self)
        ensures
            out@ == self@,
    {
        proof {
            use_type_invariant(self);
        }
        let fields = self.fields.clone();
        assert(fields@ =~= self.fields@);
        ModelProjection { fields }
    }
}

} // verus!
