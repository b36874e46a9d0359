use vstd::prelude::*;

verus! {

/// No tag occurs twice in `tags`.
pub open spec fn tags_distinct(tags: Seq<u64>) -> bool {
    forall|i: int, j: int| 0 <= i < j < tags.len() ==> tags[i] != tags[j]
}

/// `index` is the first position of `tags` that repeats an earlier tag.
pub open spec fn first_repeat(tags: Seq<u64>, index: int) -> bool {
    &&& 0 <= index < tags.len()
    &&& tags.take(index).contains(tags[index])
    &&& tags_distinct(tags.take(index))
}

/// The position of `tag` in `tags`, if it occurs there.
pub open spec fn route_index(tags: Seq<u64>, tag: u64) -> Option<int> {
    if exists|i: int| 0 <= i < tags.len() && tags[i] == tag {
        Some(choose|i: int| 0 <= i < tags.len() && tags[i] == tag)
    } else {
        None
    }
}

/// Why a list of tags cannot serve as a variant binding.
#[derive(Debug, PartialEq, Eq, Structural)]
pub enum BindingError {
    /// The list binds no variant.
    Empty,
    /// The tag at `index` was already bound at an earlier position.
    DuplicateTag { index: usize },
}

/// An ordered list of variant tags: the position of a tag is the position of
/// its channel among those an engine hands out or takes in.
pub struct Bindings {
    tags: Vec<u64>,
}

impl View for Bindings {
    type V = Seq<u64>;

    closed spec fn view(&self) -> Seq<u64> {
        self.tags@
    }
}

impl Bindings {
    #[verifier::type_invariant]
    pub open spec fn well_formed(self) -> bool {
        self@.len() > 0 && tags_distinct(self@)
    }

    /// Takes `tags` as a binding; it must be non-empty and free of repeats.
    pub fn new(tags: Vec<u64>) -> (r: Result<Bindings, BindingError>)
        ensures
            r is Ok <==> tags@.len() > 0 && tags_distinct(tags@),
            r matches Ok(b) ==> b@ == tags@,
            r == Err::<Bindings, BindingError>(BindingError::Empty) <==> tags@.len() == 0,
            r matches Err(BindingError::DuplicateTag { index }) ==> first_repeat(tags@, index as int),
    {
        if tags.len() == 0 {
            return Err(BindingError::Empty);
        }
        let mut j: usize = 1;
        while j < tags.len()
            invariant
                1 <= j <= tags.len(),
                tags_distinct(tags@.take(j as int)),
            decreases tags.len() - j,
        {
            let mut i: usize = 0;
            while i < j
                invariant
                    j < tags.len(),
                    0 <= i <= j,
                    tags_distinct(tags@.take(j as int)),
                    forall|k: int| 0 <= k < i ==> tags@[k] != tags@[j as int],
                decreases j - i,
            {
                if tags[i] == tags[j] {
                    assert(tags@.take(j as int)[i as int] == tags@[j as int]);
                    return Err(BindingError::DuplicateTag { index: j });
                }
                i += 1;
            }
            assert(tags_distinct(tags@.take(j + 1))) by {
                assert forall|a: int, b: int| 0 <= a < b < j + 1 implies #[trigger] tags@.take(j + 1)[a]
                    != #[trigger] tags@.take(j + 1)[b] by {
                    if b < j {
                        assert(tags@.take(j as int)[a] != tags@.take(j as int)[b]);
                    }
                }
            }
            j += 1;
        }
        assert(tags@.take(tags@.len() as int) == tags@);
        Ok(Bindings { tags })
    }

    /// The number of bound variants.
    pub fn len(&self) -> (r: usize)
        ensures
            r == self@.len(),
    {
        self.tags.len()
    }

    /// The tag bound at position `i`.
    pub fn tag_at(&self, i: usize) -> (r: u64)
        requires
            i < self@.len(),
        ensures
            r == self@[i as int],
    {
        self.tags[i]
    }

    /// The position at which `tag` is bound, if it is bound.
    pub fn route_of(&self, tag: u64) -> (r: Option<usize>)
        ensures
            r is None <==> route_index(self@, tag) is None,
            r matches Some(i) ==> route_index(self@, tag) == Some(i as int),
    {
        proof {
            use_type_invariant(self);
        }
        let mut i: usize = 0;
        while i < self.tags.len()
            invariant
                0 <= i <= self@.len(),
                self@ == self.tags@,
                self.well_formed(),
                forall|k: int| 0 <= k < i ==> self@[k] != tag,
            decreases self@.len() - i,
        {
            if self.tags[i] == tag {
                let ghost c = choose|k: int| 0 <= k < self@.len() && self@[k] == tag;
                assert(c == i as int);
                return Some(i);
            }
            i += 1;
        }
        None
    }
}

} // verus!
