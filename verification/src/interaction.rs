use vstd::prelude::*;

verus! {

/// A log of performed actions, by description.
pub struct ActionHistory {
    actions: Vec<String>,
}

impl ActionHistory {
    /// The descriptions logged so far.
    pub closed spec fn entries(&self) -> Seq<Seq<char>> {
        self.actions@.map_values(|a: String| a@)
    }

    /// An empty log.
    pub fn new() -> (res: Self)
        ensures
            res.entries() == Seq::<Seq<char>>::empty(),
    {
        let h = ActionHistory { actions: Vec::new() };
        assert(h.entries() =~= Seq::<Seq<char>>::empty());
        h
    }

    /// Logs an action.
    pub fn add_action(&mut self, action: String)
        ensures
            final(self).entries() == old(self).entries().push(action@),
    {
        let ghost before = self.actions@;
        self.actions.push(action);
        assert(self.actions@.map_values(|a: String| a@) =~= before.map_values(|a: String| a@).push(action@));
    }
}

/// Undo and redo bookkeeping for actions: actions wait in a queue until
/// they are performed; performed actions can be undone, and undone ones
/// redone, in stack order. What an action does is up to its owner; this
/// type only keeps the stacks.
pub struct ActionManager<A> {
    queue: Vec<A>,
    undo_stack: Vec<A>,
    redo_stack: Vec<A>,
}

impl<A> ActionManager<A> {
    /// Actions waiting to be performed, oldest first.
    pub closed spec fn queued(&self) -> Seq<A> {
        self.queue@
    }

    /// Performed actions that can be undone, most recent last.
    pub closed spec fn undoable(&self) -> Seq<A> {
        self.undo_stack@
    }

    /// Undone actions that can be redone, most recently undone last.
    pub closed spec fn redoable(&self) -> Seq<A> {
        self.redo_stack@
    }

    /// No actions at all.
    pub fn new() -> (res: Self)
        ensures
            res.queued() == Seq::<A>::empty(),
            res.undoable() == Seq::<A>::empty(),
            res.redoable() == Seq::<A>::empty(),
    {
        ActionManager { queue: Vec::new(), undo_stack: Vec::new(), redo_stack: Vec::new() }
    }

    /// Queues an action to be performed.
    pub fn queue_action(&mut self, action: A)
        ensures
            final(self).queued() == old(self).queued().push(action),
            final(self).undoable() == old(self).undoable(),
            final(self).redoable() == old(self).redoable(),
    {
        self.queue.push(action);
    }

    /// Takes the queued actions, leaving the queue empty.
    pub fn take_queue(&mut self) -> (res: Vec<A>)
        ensures
            res@ == old(self).queued(),
            final(self).queued() == Seq::<A>::empty(),
            final(self).undoable() == old(self).undoable(),
            final(self).redoable() == old(self).redoable(),
    {
        let mut taken: Vec<A> = Vec::new();
        std::mem::swap(&mut taken, &mut self.queue);
        taken
    }

    /// Records an action that has just been performed: it becomes the next
    /// to undo, and nothing can be redone any more.
    pub fn record_performed(&mut self, action: A)
        ensures
            final(self).undoable() == old(self).undoable().push(action),
            final(self).redoable() == Seq::<A>::empty(),
            final(self).queued() == old(self).queued(),
    {
        self.undo_stack.push(action);
        self.redo_stack.clear();
    }

    /// Moves the most recently performed action to the redo stack, when
    /// there is one; its owner then reverts its effect.
    pub fn undo(&mut self) -> (moved: bool)
        ensures
            moved == (old(self).undoable().len() > 0),
            moved ==> final(self).undoable() == old(self).undoable().drop_last()
                && final(self).redoable() == old(self).redoable().push(old(self).undoable().last()),
            !moved ==> final(self).undoable() == old(self).undoable() && final(self).redoable() == old(self).redoable(),
            final(self).queued() == old(self).queued(),
    {
        match self.undo_stack.pop() {
            Some(a) => {
                self.redo_stack.push(a);
                true
            },
            None => false,
        }
    }

    /// Moves the most recently undone action back to the undo stack, when
    /// there is one; its owner then performs it again.
    pub fn redo(&mut self) -> (moved: bool)
        ensures
            moved == (old(self).redoable().len() > 0),
            moved ==> final(self).redoable() == old(self).redoable().drop_last()
                && final(self).undoable() == old(self).undoable().push(old(self).redoable().last()),
            !moved ==> final(self).undoable() == old(self).undoable() && final(self).redoable() == old(self).redoable(),
            final(self).queued() == old(self).queued(),
    {
        match self.redo_stack.pop() {
            Some(a) => {
                self.undo_stack.push(a);
                true
            },
            None => false,
        }
    }
}

/// Undoing an action and then redoing it leaves the manager as it was:
/// `m1` is `m0` after a successful `undo`, and `m2` is `m1` after a
/// successful `redo`.
pub proof fn lemma_undo_then_redo<A>(m0: ActionManager<A>, m1: ActionManager<A>, m2: ActionManager<A>)
    requires
        m0.undoable().len() > 0,
        m1.undoable() == m0.undoable().drop_last(),
        m1.redoable() == m0.redoable().push(m0.undoable().last()),
        m1.queued() == m0.queued(),
        m2.redoable() == m1.redoable().drop_last(),
        m2.undoable() == m1.undoable().push(m1.redoable().last()),
        m2.queued() == m1.queued(),
    ensures
        m2.undoable() == m0.undoable(),
        m2.redoable() == m0.redoable(),
        m2.queued() == m0.queued(),
{
    assert(m0.undoable().drop_last().push(m0.undoable().last()) =~= m0.undoable());
    assert(m0.redoable().push(m0.undoable().last()).drop_last() =~= m0.redoable());
}

/// Whether a context is a file or folder on disk, or a node defined only
/// inside a context.
#[derive(Clone, Copy, PartialEq, Eq, Structural, Debug)]
pub enum ContextTypes {
    Unknown,
    Physical,
    Virtual,
}

/// A context of the graph view: the path of its focal node and its kind.
pub struct KartaContext {
    path: String,
    ctype: ContextTypes,
}

impl KartaContext {
    /// The focal path.
    pub closed spec fn path_view(&self) -> Seq<char> {
        self.path@
    }

    /// The kind.
    pub closed spec fn kind(&self) -> ContextTypes {
        self.ctype
    }

    /// A context of unknown kind.
    pub fn new(path: String) -> (res: Self)
        ensures
            res.path_view() == path@,
            res.kind() == ContextTypes::Unknown,
    {
        KartaContext { path, ctype: ContextTypes::Unknown }
    }

    /// The same context with the given kind.
    pub fn set_type(&self, ctype: ContextTypes) -> (res: Self)
        ensures
            res.path_view() == self.path_view(),
            res.kind() == ctype,
    {
        KartaContext { path: self.path.clone(), ctype }
    }

    /// The kind.
    pub fn get_type(&self) -> (res: ContextTypes)
        ensures
            res == self.kind(),
    {
        self.ctype
    }

    /// The focal path.
    pub fn get_path(&self) -> (res: String)
        ensures
            res@ == self.path_view(),
    {
        self.path.clone()
    }
}

/// The context being shown, with the trail of contexts visited.
pub struct CurrentContext {
    undo_stack: Vec<String>,
    redo_stack: Vec<String>,
    context: Option<KartaContext>,
}

impl CurrentContext {
    /// Paths entered, oldest first.
    pub closed spec fn visited(&self) -> Seq<Seq<char>> {
        self.undo_stack@.map_values(|p: String| p@)
    }

    /// Paths left by going back, most recent last.
    pub closed spec fn left(&self) -> Seq<Seq<char>> {
        self.redo_stack@.map_values(|p: String| p@)
    }

    /// The focal path and kind of the context shown, if any.
    pub closed spec fn shown(&self) -> Option<(Seq<char>, ContextTypes)> {
        match self.context {
            Some(c) => Some((c.path@, c.ctype)),
            None => None,
        }
    }

    /// Nothing shown and nothing visited.
    pub fn new() -> (res: Self)
        ensures
            res.visited() == Seq::<Seq<char>>::empty(),
            res.left() == Seq::<Seq<char>>::empty(),
            res.shown() is None,
    {
        let c = CurrentContext { undo_stack: Vec::new(), redo_stack: Vec::new(), context: None };
        assert(c.visited() =~= Seq::<Seq<char>>::empty());
        assert(c.left() =~= Seq::<Seq<char>>::empty());
        c
    }

    /// The focal path of the context shown, if any.
    pub fn current_path(&self) -> (res: Option<String>)
        ensures
            match res {
                Some(p) => self.shown() is Some && self.shown().unwrap().0 == p@,
                None => self.shown() is None,
            },
    {
        match &self.context {
            Some(c) => Some(c.get_path()),
            None => None,
        }
    }

    /// Shows the context at `path` (after it was checked on disk) and adds
    /// it to the trail.
    pub fn enter(&mut self, path: String, ctype: ContextTypes)
        ensures
            final(self).visited() == old(self).visited().push(path@),
            final(self).left() == old(self).left(),
            final(self).shown() == Some((path@, ctype)),
    {
        let ghost before = self.undo_stack@;
        self.undo_stack.push(path.clone());
        assert(self.undo_stack@.map_values(|p: String| p@) =~= before.map_values(|p: String| p@).push(path@));
        self.context = Some(KartaContext { path, ctype });
    }

    /// Goes back one step when the trail holds more than one context: the
    /// latest is set aside for redoing, and the path of the one before it is
    /// given to be shown again.
    pub fn undo_context(&mut self) -> (res: Option<String>)
        ensures
            old(self).visited().len() > 1 ==> {
                &&& res is Some
                &&& final(self).visited() == old(self).visited().drop_last()
                &&& final(self).left() == old(self).left().push(old(self).visited().last())
                &&& res->0@ == old(self).visited().drop_last().last()
            },
            old(self).visited().len() <= 1 ==> res is None && final(self).visited() == old(self).visited()
                && final(self).left() == old(self).left(),
            final(self).shown() == old(self).shown(),
    {
        if self.undo_stack.len() > 1 {
            let ghost u = self.undo_stack@;
            let ghost r = self.redo_stack@;
            let path = self.undo_stack.pop().unwrap();
            self.redo_stack.push(path);
            assert(self.undo_stack@.map_values(|p: String| p@) =~= u.map_values(|p: String| p@).drop_last());
            assert(self.redo_stack@.map_values(|p: String| p@) =~= r.map_values(|p: String| p@).push(u.last()@));
            let n = self.undo_stack.len();
            Some(self.undo_stack[n - 1].clone())
        } else {
            None
        }
    }

    /// Takes the most recently left context back, giving its path to be
    /// shown again.
    pub fn redo_context(&mut self) -> (res: Option<String>)
        ensures
            old(self).left().len() > 0 ==> res is Some && res->0@ == old(self).left().last()
                && final(self).left() == old(self).left().drop_last(),
            old(self).left().len() == 0 ==> res is None && final(self).left() == old(self).left(),
            final(self).visited() == old(self).visited(),
            final(self).shown() == old(self).shown(),
    {
        let ghost r = self.redo_stack@;
        match self.redo_stack.pop() {
            Some(p) => {
                assert(self.redo_stack@.map_values(|q: String| q@) =~= r.map_values(|q: String| q@).drop_last());
                Some(p)
            },
            None => None,
        }
    }
}

/// Changing to another context, remembering where the view was.
pub struct MoveToContextAction {
    previous: Option<String>,
    next: String,
}

impl MoveToContextAction {
    /// The target path.
    pub closed spec fn target(&self) -> Seq<char> {
        self.next@
    }

    /// The path the view was at when the action was performed, if any.
    pub closed spec fn origin(&self) -> Option<Seq<char>> {
        match self.previous {
            Some(p) => Some(p@),
            None => None,
        }
    }

    /// An action towards `next`, not performed yet.
    pub fn new(next: String) -> (res: Self)
        ensures
            res.target() == next@,
            res.origin() is None,
    {
        MoveToContextAction { previous: None, next }
    }

    /// Performs the action: remembers the context shown and gives the path
    /// to show next.
    pub fn execute(&mut self, current: &CurrentContext) -> (res: String)
        ensures
            res@ == old(self).target(),
            final(self).target() == old(self).target(),
            final(self).origin() == match current.shown() {
                Some(s) => Some(s.0),
                None => None,
            },
    {
        self.previous = current.current_path();
        self.next.clone()
    }

    /// The path to show when undoing: where the view was, if it was anywhere.
    pub fn undo(&self) -> (res: Option<String>)
        ensures
            match res {
                Some(p) => self.origin() == Some(p@),
                None => self.origin() is None,
            },
    {
        match &self.previous {
            Some(p) => Some(p.clone()),
            None => None,
        }
    }

    /// The path to show when redoing.
    pub fn redo(&self) -> (res: String)
        ensures
            res@ == self.target(),
    {
        self.next.clone()
    }
}

/// Expanding a node's context into the current view.
pub struct ExpandContextAction {
    previous: Option<String>,
    next: String,
}

impl ExpandContextAction {
    /// The node whose context is expanded.
    pub closed spec fn target(&self) -> Seq<char> {
        self.next@
    }

    /// The context shown when the action was performed, if any.
    pub closed spec fn origin(&self) -> Option<Seq<char>> {
        match self.previous {
            Some(p) => Some(p@),
            None => None,
        }
    }

    /// An expansion of `next`, not performed yet.
    pub fn new(next: String) -> (res: Self)
        ensures
            res.target() == next@,
            res.origin() is None,
    {
        ExpandContextAction { previous: None, next }
    }

    /// Performs the action: remembers the context shown and gives the node
    /// to expand.
    pub fn execute(&mut self, current: &CurrentContext) -> (res: String)
        ensures
            res@ == old(self).target(),
            final(self).target() == old(self).target(),
            final(self).origin() == match current.shown() {
                Some(s) => Some(s.0),
                None => None,
            },
    {
        self.previous = current.current_path();
        self.next.clone()
    }
}

/// Collapsing a node's context out of the current view.
pub struct CollapseContextAction {
    target: String,
}

impl CollapseContextAction {
    /// The node whose context is collapsed.
    pub closed spec fn target_view(&self) -> Seq<char> {
        self.target@
    }

    /// A collapse of `target`.
    pub fn new(target: String) -> (res: Self)
        ensures
            res.target_view() == target@,
    {
        CollapseContextAction { target }
    }

    /// Performs the action: gives the node to collapse.
    pub fn execute(&self) -> (res: String)
        ensures
            res@ == self.target_view(),
    {
        self.target.clone()
    }
}

/// Deleting an edge from the view, remembering its ends.
pub struct DeleteEdgeAction {
    source: String,
    target: String,
}

impl DeleteEdgeAction {
    /// The ends remembered, source first.
    pub closed spec fn ends(&self) -> (Seq<char>, Seq<char>) {
        (self.source@, self.target@)
    }

    /// A deletion with no ends remembered yet.
    pub fn new() -> (res: Self)
        ensures
            res.ends() == (Seq::<char>::empty(), Seq::<char>::empty()),
    {
        DeleteEdgeAction { source: String::new(), target: String::new() }
    }

    /// Performs the action on an edge of the given kind and ends: a parent
    /// edge is kept (and nothing is remembered); any other edge is to be
    /// removed, and its ends are remembered. Tells whether to remove it.
    pub fn execute(&mut self, etype: crate::modes::EdgeTypes, source: &str, target: &str) -> (remove: bool)
        ensures
            remove == (etype != crate::modes::EdgeTypes::Parent),
            remove ==> final(self).ends() == (source@, target@),
            !remove ==> final(self).ends() == old(self).ends(),
    {
        if !crate::modes::edge_is_deletable(etype) {
            return false;
        }
        self.source = String::from_str(source);
        self.target = String::from_str(target);
        true
    }
}

/// Going back one context and forward again restores the trail: `c1` is
/// `c0` after `undo_context`, `c2` is `c1` after `redo_context` gave
/// `forth`, and `c3` is `c2` after entering `forth` again (of kind `kind`).
pub proof fn lemma_back_then_forward(c0: CurrentContext, c1: CurrentContext, c2: CurrentContext, c3: CurrentContext, forth: Seq<char>, kind: ContextTypes)
    requires
        c0.visited().len() > 1,
        c1.visited() == c0.visited().drop_last(),
        c1.left() == c0.left().push(c0.visited().last()),
        forth == c1.left().last(),
        c2.left() == c1.left().drop_last(),
        c2.visited() == c1.visited(),
        c3.visited() == c2.visited().push(forth),
        c3.left() == c2.left(),
        c3.shown() == Some((forth, kind)),
    ensures
        c3.visited() == c0.visited(),
        c3.left() == c0.left(),
        c3.shown() == Some((c0.visited().last(), kind)),
{
    assert(c0.visited().drop_last().push(c0.visited().last()) =~= c0.visited());
    assert(c0.left().push(c0.visited().last()).drop_last() =~= c0.left());
}

} // verus!
