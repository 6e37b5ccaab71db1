use vstd::prelude::*;

verus! {

/// How the end of an arrow is drawn.
#[derive(Debug, Clone, Copy, PartialEq, Eq, Structural)]
pub enum ArrowHeadStyle {
    Solid,
    Open,
    NoHead,
}

/// The annotations drawn on a capture, with an undo history: `objects` are shown in order
/// (later ones on top), undone objects wait on the redo stack.
pub struct AnnotationDocument<O, S> {
    pub objects: Vec<O>,
    redo_stack: Vec<O>,
    pub current_style: S,
}

/// The shown objects and the redo stack (top last).
pub open spec fn undo_spec<O>(state: (Seq<O>, Seq<O>)) -> (Seq<O>, Seq<O>) {
    let (objs, redo) = state;
    if objs.len() > 0 {
        (objs.drop_last(), redo.push(objs.last()))
    } else {
        state
    }
}

pub open spec fn redo_spec<O>(state: (Seq<O>, Seq<O>)) -> (Seq<O>, Seq<O>) {
    let (objs, redo) = state;
    if redo.len() > 0 {
        (objs.push(redo.last()), redo.drop_last())
    } else {
        state
    }
}

impl<O, S> AnnotationDocument<O, S> {
    /// The shown objects and the redo stack.
    pub closed spec fn history(&self) -> (Seq<O>, Seq<O>) {
        (self.objects@, self.redo_stack@)
    }

    pub closed spec fn redo_spec_stack(&self) -> Seq<O> {
        self.redo_stack@
    }

    pub fn new() -> (r: Self) where S: Default
        ensures
            r.history() == (Seq::<O>::empty(), Seq::<O>::empty()),
    {
        Self { objects: Vec::new(), redo_stack: Vec::new(), current_style: S::default() }
    }

    /// Adds an object on top; the redo stack is dropped.
    pub fn add_object(&mut self, object: O)
        ensures
            final(self).history() == (old(self).history().0.push(object), Seq::<O>::empty()),
    {
        self.objects.push(object);
        self.redo_stack.clear();
    }

    /// Moves the top object to the redo stack; false when there is none.
    pub fn undo(&mut self) -> (r: bool)
        ensures
            r == (old(self).history().0.len() > 0),
            final(self).history() == undo_spec(old(self).history()),
    {
        match self.objects.pop() {
            Some(obj) => {
                self.redo_stack.push(obj);
                true
            },
            None => false,
        }
    }

    /// Moves the top of the redo stack back on top of the objects; false when there is none.
    pub fn redo(&mut self) -> (r: bool)
        ensures
            r == (old(self).redo_spec_stack().len() > 0),
            final(self).history() == redo_spec(old(self).history()),
    {
        match self.redo_stack.pop() {
            Some(obj) => {
                self.objects.push(obj);
                true
            },
            None => false,
        }
    }

    /// Takes out the object at `index`, dropping the redo stack; `None` when out of range.
    pub fn remove_object(&mut self, index: usize) -> (r: Option<O>)
        ensures
            match r {
                Some(obj) => {
                    &&& index < old(self).history().0.len()
                    &&& obj == old(self).history().0[index as int]
                    &&& final(self).history() == (
                        old(self).history().0.remove(index as int),
                        Seq::<O>::empty(),
                    )
                },
                None => index >= old(self).history().0.len() && final(self).history() == old(
                    self,
                ).history(),
            },
    {
        if index < self.objects.len() {
            let obj = self.objects.remove(index);
            self.redo_stack.clear();
            Some(obj)
        } else {
            None
        }
    }

    /// Drops all objects and the redo stack.
    pub fn clear(&mut self)
        ensures
            final(self).history() == (Seq::<O>::empty(), Seq::<O>::empty()),
    {
        self.objects.clear();
        self.redo_stack.clear();
    }

    pub fn object_count(&self) -> (r: usize)
        ensures
            r == self.history().0.len(),
    {
        self.objects.len()
    }

    pub fn can_undo(&self) -> (r: bool)
        ensures
            r == (self.history().0.len() > 0),
    {
        !self.objects.is_empty()
    }

    pub fn can_redo(&self) -> (r: bool)
        ensures
            r == (self.redo_spec_stack().len() > 0),
    {
        !self.redo_stack.is_empty()
    }

    /// The index of the topmost object for which `hit` answers true.
    pub fn hit_test_with<F: Fn(&O) -> bool>(&self, hit: F) -> (r: Option<usize>)
        requires
            forall|i: int| 0 <= i < self.history().0.len() ==> call_requires(hit, (&self.history().0[i],)),
        ensures
            match r {
                Some(i) => i < self.history().0.len() && call_ensures(hit, (&self.history().0[i as int],), true)
                    && forall|j: int|
                    i < j < self.history().0.len() ==> call_ensures(hit, (&self.history().0[j],), false),
                None => forall|j: int|
                    0 <= j < self.history().0.len() ==> call_ensures(hit, (&self.history().0[j],), false),
            },
    {
        let mut i = self.objects.len();
        assert(self.history().0 == self.objects@);
        while i > 0
            invariant
                0 <= i <= self.objects@.len(),
                forall|k: int| 0 <= k < self.objects@.len() ==> call_requires(hit, (&self.objects@[k],)),
                forall|j: int|
                    i <= j < self.objects@.len() ==> call_ensures(hit, (&self.objects@[j],), false),
            decreases i,
        {
            i = i - 1;
            let h = hit(&self.objects[i]);
            if h {
                return Some(i);
            }
        }
        None
    }
}

/// Undoing and then redoing gives back the document as it was.
pub proof fn lemma_undo_then_redo<O>(state: (Seq<O>, Seq<O>))
    requires
        state.0.len() > 0,
    ensures
        redo_spec(undo_spec(state)) == state,
{
    let (objs, redo) = state;
    assert(objs.drop_last().push(objs.last()) =~= objs);
    assert(redo.push(objs.last()).drop_last() =~= redo);
}

/// Redoing and then undoing gives back the document as it was.
pub proof fn lemma_redo_then_undo<O>(state: (Seq<O>, Seq<O>))
    requires
        state.1.len() > 0,
    ensures
        undo_spec(redo_spec(state)) == state,
{
    let (objs, redo) = state;
    assert(objs.push(redo.last()).drop_last() =~= objs);
    assert(redo.drop_last().push(redo.last()) =~= redo);
}

/// Undo and redo move objects between the two stacks without losing or creating any.
pub proof fn lemma_undo_redo_conserve<O>(state: (Seq<O>, Seq<O>))
    ensures
        undo_spec(state).0.len() + undo_spec(state).1.len() == state.0.len() + state.1.len(),
        redo_spec(state).0.len() + redo_spec(state).1.len() == state.0.len() + state.1.len(),
{
}

} // verus!
