//! The environment: frames of bindings, each with a link to its lexical
//! ancestor, and a cursor on the current frame.
//!
//! Frame 0 is the global frame. A frame is never removed, so that a function
//! can keep the frame it was declared in; leaving a scope only moves the
//! cursor.

use vstd::prelude::*;
use vstd::string::*;
use crate::value::{LoxValue, ValueView};

verus! {

/// The mathematical value of a frame.
pub struct FrameView {
    /// The value bound to each name of the frame.
    pub bindings: Map<Seq<char>, ValueView>,
    /// The index of the lexical ancestor; the global frame has none.
    pub ancestor: Option<int>,
}

/// The mathematical value of an [`Environment`].
pub struct EnvironmentView {
    pub frames: Seq<FrameView>,
    /// The index of the current frame.
    pub current: int,
    /// The number of scopes entered and not yet left.
    pub depth: nat,
}

impl EnvironmentView {
    /// The cursor stands on a frame, the global frame comes first, and every
    /// other frame was created after its ancestor.
    pub open spec fn wf(self) -> bool {
        &&& 0 <= self.current < self.frames.len()
        &&& self.depth < self.frames.len()
        &&& self.frames[0].ancestor is None
        &&& forall|i: int|
            0 < i < self.frames.len() ==> (#[trigger] self.frames[i]).ancestor is Some && 0
                <= self.frames[i].ancestor->0 < i
    }

    /// Nothing but bindings differs from `before`, and frames may have been
    /// added: the cursor and the count of open scopes are the same, and every
    /// frame of `before` is there with the same ancestor.
    pub open spec fn extends(self, before: EnvironmentView) -> bool {
        &&& self.current == before.current
        &&& self.depth == before.depth
        &&& self.frames.len() >= before.frames.len()
        &&& forall|i: int|
            0 <= i < before.frames.len() ==> (#[trigger] self.frames[i]).ancestor == before.frames[i].ancestor
    }

    /// One empty global frame.
    pub open spec fn initial() -> EnvironmentView {
        EnvironmentView {
            frames: seq![FrameView { bindings: Map::empty(), ancestor: None }],
            current: 0,
            depth: 0,
        }
    }

    /// A new empty frame becomes current; its ancestor is `ancestor`.
    pub open spec fn enter(self, ancestor: int) -> EnvironmentView {
        EnvironmentView {
            frames: self.frames.push(FrameView { bindings: Map::empty(), ancestor: Some(ancestor) }),
            current: self.frames.len() as int,
            depth: self.depth + 1,
        }
    }

    /// A new empty frame becomes current; its ancestor is the global frame or
    /// the frame that was current.
    pub open spec fn enter_scope(self, is_global: bool) -> EnvironmentView {
        self.enter(
            if is_global {
                0
            } else {
                self.current
            },
        )
    }

    /// The cursor moves to `cursor`, and one scope fewer is open.
    pub open spec fn leave(self, cursor: int) -> EnvironmentView {
        EnvironmentView { frames: self.frames, current: cursor, depth: (self.depth - 1) as nat }
    }

    /// The ancestor of the current frame becomes current.
    pub open spec fn exit_scope(self) -> EnvironmentView {
        self.leave(self.frames[self.current].ancestor->0)
    }

    /// The frame `index` with `name` bound to `value`.
    pub open spec fn bind(self, index: int, name: Seq<char>, value: ValueView) -> EnvironmentView {
        EnvironmentView {
            frames: self.frames.update(
                index,
                FrameView {
                    bindings: self.frames[index].bindings.insert(name, value),
                    ancestor: self.frames[index].ancestor,
                },
            ),
            current: self.current,
            depth: self.depth,
        }
    }

    /// `name` is bound to `value` in the current frame, whether or not it was
    /// bound there before.
    pub open spec fn define(self, name: Seq<char>, value: ValueView) -> EnvironmentView {
        self.bind(self.current, name, value)
    }

    /// The first frame that binds `name`, going from `from` through its
    /// ancestors.
    pub open spec fn find(self, name: Seq<char>, from: int) -> Option<int>
        decreases from,
    {
        if !(0 <= from < self.frames.len()) {
            None
        } else if self.frames[from].bindings.contains_key(name) {
            Some(from)
        } else {
            match self.frames[from].ancestor {
                Some(ancestor) => if 0 <= ancestor < from {
                    self.find(name, ancestor)
                } else {
                    None
                },
                None => None,
            }
        }
    }

    /// The value of `name` in the first frame that binds it, going from the
    /// current frame through its ancestors.
    pub open spec fn get(self, name: Seq<char>) -> Option<ValueView> {
        match self.find(name, self.current) {
            Some(index) => Some(self.frames[index].bindings[name]),
            None => None,
        }
    }

    /// `name` is bound to `value` in the first frame that binds it already;
    /// `None` where no frame does.
    pub open spec fn assign(self, name: Seq<char>, value: ValueView) -> Option<EnvironmentView> {
        match self.find(name, self.current) {
            Some(index) => Some(self.bind(index, name, value)),
            None => None,
        }
    }

    /// The value of `name` in the global frame.
    pub open spec fn get_global(self, name: Seq<char>) -> Option<ValueView> {
        if self.frames[0].bindings.contains_key(name) {
            Some(self.frames[0].bindings[name])
        } else {
            None
        }
    }

    /// `name` is bound to `value` in the global frame, if that frame binds it
    /// already.
    pub open spec fn assign_global(self, name: Seq<char>, value: ValueView) -> Option<EnvironmentView> {
        if self.frames[0].bindings.contains_key(name) {
            Some(self.bind(0, name, value))
        } else {
            None
        }
    }

    /// The frame reached from `from` by exactly `distance` steps to the
    /// ancestor; `None` where the chain is shorter.
    pub open spec fn hop(self, from: int, distance: nat) -> Option<int>
        decreases distance,
    {
        if !(0 <= from < self.frames.len()) {
            None
        } else if distance == 0 {
            Some(from)
        } else {
            match self.frames[from].ancestor {
                Some(ancestor) => self.hop(ancestor, (distance - 1) as nat),
                None => None,
            }
        }
    }

    /// The index of the frame `distance` steps from the current one, if that
    /// frame binds `name`.
    pub open spec fn locate(self, distance: nat, name: Seq<char>) -> Option<int> {
        match self.hop(self.current, distance) {
            Some(index) => if self.frames[index].bindings.contains_key(name) {
                Some(index)
            } else {
                None
            },
            None => None,
        }
    }

    /// The value of `name` in the frame `distance` steps from the current one,
    /// and in no other.
    pub open spec fn get_at(self, distance: nat, name: Seq<char>) -> Option<ValueView> {
        match self.locate(distance, name) {
            Some(index) => Some(self.frames[index].bindings[name]),
            None => None,
        }
    }

    /// `name` is bound to `value` in the frame `distance` steps from the
    /// current one, if that frame binds it already.
    pub open spec fn assign_at(self, distance: nat, name: Seq<char>, value: ValueView) -> Option<
        EnvironmentView,
    > {
        match self.locate(distance, name) {
            Some(index) => Some(self.bind(index, name, value)),
            None => None,
        }
    }
}

/// A frame reached by steps to the ancestor is a frame of the environment.
pub proof fn lemma_hop_in_range(env: EnvironmentView, from: int, distance: nat)
    requires
        env.hop(from, distance) is Some,
    ensures
        0 <= env.hop(from, distance)->0 < env.frames.len(),
    decreases distance,
{
    if distance > 0 {
        lemma_hop_in_range(env, env.frames[from].ancestor->0, (distance - 1) as nat);
    }
}

/// The bindings that a list of names and a list of values stand for: a later
/// entry for a name hides the earlier ones.
pub open spec fn bindings_of(names: Seq<String>, values: Seq<LoxValue>) -> Map<Seq<char>, ValueView>
    decreases names.len(),
{
    if names.len() == 0 || names.len() != values.len() {
        Map::empty()
    } else {
        bindings_of(names.drop_last(), values.drop_last()).insert(names.last()@, values.last()@)
    }
}

proof fn lemma_bindings_push(names: Seq<String>, values: Seq<LoxValue>, name: String, value: LoxValue)
    requires
        names.len() == values.len(),
    ensures
        bindings_of(names.push(name), values.push(value)) == bindings_of(names, values).insert(
            name@,
            value@,
        ),
{
    assert(names.push(name).drop_last() =~= names);
    assert(values.push(value).drop_last() =~= values);
}

proof fn lemma_bindings_absent(names: Seq<String>, values: Seq<LoxValue>, name: Seq<char>)
    requires
        names.len() == values.len(),
        forall|k: int| 0 <= k < names.len() ==> names[k]@ != name,
    ensures
        !bindings_of(names, values).contains_key(name),
    decreases names.len(),
{
    if names.len() > 0 {
        lemma_bindings_absent(names.drop_last(), values.drop_last(), name);
    }
}

proof fn lemma_bindings_found(names: Seq<String>, values: Seq<LoxValue>, name: Seq<char>, i: int)
    requires
        names.len() == values.len(),
        0 <= i < names.len(),
        names[i]@ == name,
        forall|k: int| i < k < names.len() ==> names[k]@ != name,
    ensures
        bindings_of(names, values).contains_key(name),
        bindings_of(names, values)[name] == values[i]@,
    decreases names.len(),
{
    if i < names.len() - 1 {
        lemma_bindings_found(names.drop_last(), values.drop_last(), name, i);
    }
}

proof fn lemma_bindings_update(
    names: Seq<String>,
    values: Seq<LoxValue>,
    name: Seq<char>,
    i: int,
    value: LoxValue,
)
    requires
        names.len() == values.len(),
        0 <= i < names.len(),
        names[i]@ == name,
        forall|k: int| i < k < names.len() ==> names[k]@ != name,
    ensures
        bindings_of(names, values.update(i, value)) == bindings_of(names, values).insert(name, value@),
    decreases names.len(),
{
    let updated = values.update(i, value);
    if i < names.len() - 1 {
        lemma_bindings_update(names.drop_last(), values.drop_last(), name, i, value);
        assert(updated.drop_last() =~= values.drop_last().update(i, value));
        assert(bindings_of(names, updated) =~= bindings_of(names, values).insert(name, value@));
    } else {
        assert(updated.drop_last() =~= values.drop_last());
        assert(bindings_of(names, updated) =~= bindings_of(names, values).insert(name, value@));
    }
}

/// A frame: its names and their values, entry by entry, and the index of its
/// ancestor. A later entry for a name hides the earlier ones.
pub struct Frame {
    names: Vec<String>,
    values: Vec<LoxValue>,
    ancestor: Option<usize>,
}

impl Frame {
    /// The mathematical value of the frame.
    pub closed spec fn view(&self) -> FrameView {
        FrameView {
            bindings: bindings_of(self.names@, self.values@),
            ancestor: match self.ancestor {
                Some(a) => Some(a as int),
                None => None,
            },
        }
    }

    closed spec fn inv(&self) -> bool {
        self.names.len() == self.values.len()
    }

    fn new(ancestor: Option<usize>) -> (r: Frame)
        ensures
            r.inv(),
            r@ == (FrameView {
                bindings: Map::empty(),
                ancestor: match ancestor {
                    Some(a) => Some(a as int),
                    None => None,
                },
            }),
    {
        Frame { names: Vec::new(), values: Vec::new(), ancestor }
    }

    /// The index of the entry that binds `name`, if there is one.
    fn position(&self, name: &String) -> (r: Option<usize>)
        requires
            self.inv(),
        ensures
            match r {
                Some(i) => i < self.values.len() && self@.bindings.contains_key(name@)
                    && self@.bindings[name@] == self.values[i as int]@ && self.names[i as int]@ == name@
                    && forall|k: int| i < k < self.names.len() ==> self.names[k]@ != name@,
                None => !self@.bindings.contains_key(name@),
            },
    {
        let mut i: usize = self.names.len();
        while i > 0
            invariant
                self.inv(),
                i <= self.names.len(),
                forall|k: int| i <= k < self.names.len() ==> self.names[k]@ != name@,
            decreases i,
        {
            i = i - 1;
            if self.names[i] == *name {
                proof {
                    lemma_bindings_found(self.names@, self.values@, name@, i as int);
                }
                return Some(i);
            }
        }
        proof {
            lemma_bindings_absent(self.names@, self.values@, name@);
        }
        None
    }

    fn define(&mut self, name: String, value: LoxValue)
        requires
            old(self).inv(),
        ensures
            final(self).inv(),
            final(self)@.bindings == old(self)@.bindings.insert(name@, value@),
            final(self)@.ancestor == old(self)@.ancestor,
    {
        proof {
            lemma_bindings_push(self.names@, self.values@, name, value);
        }
        self.names.push(name);
        self.values.push(value);
    }

    fn overwrite(&mut self, i: usize, value: LoxValue)
        requires
            old(self).inv(),
            i < old(self).names.len(),
            forall|k: int| i < k < old(self).names.len() ==> old(self).names[k]@ != old(self).names[i as int]@,
        ensures
            final(self).inv(),
            final(self)@.bindings == old(self)@.bindings.insert(old(self).names[i as int]@, value@),
            final(self)@.ancestor == old(self)@.ancestor,
    {
        proof {
            lemma_bindings_update(self.names@, self.values@, self.names[i as int]@, i as int, value);
        }
        self.values[i] = value;
    }
}

/// The error of a lookup or an assignment that found no binding.
#[derive(Debug, PartialEq, Eq, Clone, Copy, Structural)]
pub struct UndefinedVariable;

/// The frames, the index of the current one, and the number of scopes
/// entered and not yet left.
pub struct Environment {
    registry: Vec<Frame>,
    curregis: usize,
    curdepth: usize,
}

impl Environment {
    /// The mathematical value of the environment.
    pub closed spec fn view(&self) -> EnvironmentView {
        EnvironmentView {
            frames: Seq::new(self.registry.len() as nat, |i: int| self.registry[i]@),
            current: self.curregis as int,
            depth: self.curdepth as nat,
        }
    }

    /// Every frame holds as many values as names.
    pub closed spec fn inv(&self) -> bool {
        forall|i: int| 0 <= i < self.registry.len() ==> (#[trigger] self.registry[i]).inv()
    }

    /// The frames are sound, and linked as a sound view is.
    pub open spec fn wf(&self) -> bool {
        self@.wf() && self.inv()
    }

    /// An environment with one empty global frame.
    pub fn new() -> (r: Environment)
        ensures
            r.wf(),
            r@ == EnvironmentView::initial(),
    {
        let mut registry: Vec<Frame> = Vec::new();
        registry.push(Frame::new(None));
        let r = Environment { registry, curregis: 0, curdepth: 0 };
        assert(r@.frames =~= EnvironmentView::initial().frames);
        r
    }

    /// The index of the current frame.
    pub fn current(&self) -> (r: usize)
        ensures
            r == self@.current,
    {
        self.curregis
    }

    /// The number of scopes entered and not yet left.
    pub fn depth(&self) -> (r: usize)
        ensures
            r == self@.depth,
    {
        self.curdepth
    }

    /// Pushes a new empty frame, which becomes current, with the given
    /// ancestor. Gives back the index of the frame that was current.
    pub fn enter(&mut self, ancestor: usize) -> (r: usize)
        requires
            old(self).wf(),
            ancestor < old(self)@.frames.len(),
        ensures
            final(self).wf(),
            final(self)@ == old(self)@.enter(ancestor as int),
            r == old(self)@.current,
    {
        let before = self.curregis;
        self.registry.push(Frame::new(Some(ancestor)));
        self.curdepth = self.curdepth + 1;
        self.curregis = self.registry.len() - 1;
        assert(self@.frames =~= old(self)@.enter(ancestor as int).frames);
        before
    }

    /// Enters a scope: pushes a new empty frame, which becomes current. Its
    /// ancestor is the global frame if `is_global`, else the frame that was
    /// current.
    pub fn enter_scope(&mut self, is_global: bool)
        requires
            old(self).wf(),
        ensures
            final(self).wf(),
            final(self)@ == old(self)@.enter_scope(is_global),
    {
        let ancestor = if is_global {
            0
        } else {
            self.curregis
        };
        self.enter(ancestor);
    }

    /// Leaves a scope for the frame `cursor`.
    pub fn leave(&mut self, cursor: usize)
        requires
            old(self).wf(),
            old(self)@.depth > 0,
            cursor < old(self)@.frames.len(),
        ensures
            final(self).wf(),
            final(self)@ == old(self)@.leave(cursor as int),
    {
        self.curdepth = self.curdepth - 1;
        self.curregis = cursor;
        assert(self@.frames =~= old(self)@.frames);
    }

    /// Leaves the current scope: its ancestor becomes current.
    pub fn exit_scope(&mut self)
        requires
            old(self).wf(),
            old(self)@.depth > 0,
            old(self)@.current > 0,
        ensures
            final(self).wf(),
            final(self)@ == old(self)@.exit_scope(),
    {
        assert(self@.frames[self.curregis as int] == self.registry[self.curregis as int]@);
        match self.registry[self.curregis].ancestor {
            Some(ancestor) => {
                self.leave(ancestor);
            },
            None => {
                assert(false);
            },
        }
    }

    /// Binds `name` to `value` in the current frame, whether or not the frame
    /// bound it before.
    pub fn define(&mut self, name: &str, value: LoxValue)
        requires
            old(self).wf(),
        ensures
            final(self).wf(),
            final(self)@.extends(old(self)@),
            final(self)@ == old(self)@.define(name@, value@),
    {
        let index = self.curregis;
        self.registry[index].define(String::from_str(name), value);
        assert(self@.frames =~= old(self)@.define(name@, value@).frames);
    }

    /// The index of the first frame that binds `name`, going from `from`
    /// through its ancestors, with the place of the binding in that frame.
    fn find(&self, name: &String, from: usize) -> (r: Option<(usize, usize)>)
        requires
            self.wf(),
            from < self.registry.len(),
        ensures
            match r {
                Some((index, entry)) => {
                    &&& self@.find(name@, from as int) == Some(index as int)
                    &&& index < self.registry.len()
                    &&& entry < self.registry[index as int].values.len()
                    &&& self.registry[index as int]@.bindings[name@] == self.registry[index as int].values[entry as int]@
                    &&& self.registry[index as int].names[entry as int]@ == name@
                    &&& forall|k: int|
                        entry < k < self.registry[index as int].names.len() ==> self.registry[index as int].names[k]@
                            != name@
                },
                None => self@.find(name@, from as int) is None,
            },
    {
        let mut index = from;
        loop
            invariant
                self.wf(),
                index < self.registry.len(),
                self@.find(name@, from as int) == self@.find(name@, index as int),
            decreases index,
        {
            assert(self@.frames[index as int] == self.registry[index as int]@);
            if let Some(entry) = self.registry[index].position(name) {
                return Some((index, entry));
            }
            match self.registry[index].ancestor {
                Some(ancestor) => {
                    index = ancestor;
                },
                None => {
                    return None;
                },
            }
        }
    }

    /// The value of `name` in the first frame that binds it, going from the
    /// current frame through its ancestors.
    pub fn get(&self, name: &str) -> (r: Result<LoxValue, UndefinedVariable>)
        requires
            self.wf(),
        ensures
            match r {
                Ok(value) => self@.get(name@) == Some(value@),
                Err(_) => self@.get(name@) is None,
            },
    {
        let key = String::from_str(name);
        match self.find(&key, self.curregis) {
            Some((index, entry)) => {
                assert(self@.frames[index as int] == self.registry[index as int]@);
                Ok(self.registry[index].values[entry].clone())
            },
            None => Err(UndefinedVariable),
        }
    }

    /// Binds `name` to `value` in the first frame that binds it already, going
    /// from the current frame through its ancestors. Creates no binding.
    pub fn assign(&mut self, name: &str, value: LoxValue) -> (r: Result<(), UndefinedVariable>)
        requires
            old(self).wf(),
        ensures
            final(self).wf(),
            final(self)@.extends(old(self)@),
            match r {
                Ok(_) => old(self)@.assign(name@, value@) == Some(final(self)@),
                Err(_) => old(self)@.assign(name@, value@) is None && final(self)@ == old(self)@,
            },
    {
        let key = String::from_str(name);
        match self.find(&key, self.curregis) {
            Some((index, entry)) => {
                assert(self@.frames[index as int] == self.registry[index as int]@);
                self.registry[index].overwrite(entry, value);
                assert(self@.frames =~= old(self)@.bind(index as int, name@, value@).frames);
                Ok(())
            },
            None => Err(UndefinedVariable),
        }
    }

    /// The value of `name` in the global frame; no other frame is looked at.
    pub fn get_global(&self, name: &str) -> (r: Result<LoxValue, UndefinedVariable>)
        requires
            self.wf(),
        ensures
            match r {
                Ok(value) => self@.get_global(name@) == Some(value@),
                Err(_) => self@.get_global(name@) is None,
            },
    {
        let key = String::from_str(name);
        assert(self@.frames[0] == self.registry[0]@);
        match self.registry[0].position(&key) {
            Some(entry) => Ok(self.registry[0].values[entry].clone()),
            None => Err(UndefinedVariable),
        }
    }

    /// Binds `name` to `value` in the global frame, if that frame binds it
    /// already; no other frame is looked at.
    pub fn assign_global(&mut self, name: &str, value: LoxValue) -> (r: Result<(), UndefinedVariable>)
        requires
            old(self).wf(),
        ensures
            final(self).wf(),
            final(self)@.extends(old(self)@),
            match r {
                Ok(_) => old(self)@.assign_global(name@, value@) == Some(final(self)@),
                Err(_) => old(self)@.assign_global(name@, value@) is None && final(self)@ == old(self)@,
            },
    {
        let key = String::from_str(name);
        assert(self@.frames[0] == self.registry[0]@);
        match self.registry[0].position(&key) {
            Some(entry) => {
                self.registry[0].overwrite(entry, value);
                assert(self@.frames =~= old(self)@.bind(0, name@, value@).frames);
                Ok(())
            },
            None => Err(UndefinedVariable),
        }
    }

    /// The number of frames.
    pub fn frames(&self) -> (r: usize)
        ensures
            r == self@.frames.len(),
    {
        self.registry.len()
    }

    /// The frame `distance` steps from the current one, if it binds `name`,
    /// with the place of the binding in it.
    fn locate(&self, distance: usize, name: &String) -> (r: Option<(usize, usize)>)
        requires
            self.wf(),
        ensures
            match r {
                Some((index, entry)) => {
                    &&& self@.locate(distance as nat, name@) == Some(index as int)
                    &&& index < self.registry.len()
                    &&& entry < self.registry[index as int].values.len()
                    &&& self.registry[index as int]@.bindings[name@] == self.registry[index as int].values[entry as int]@
                    &&& self.registry[index as int].names[entry as int]@ == name@
                    &&& forall|k: int|
                        entry < k < self.registry[index as int].names.len() ==> self.registry[index as int].names[k]@
                            != name@
                },
                None => self@.locate(distance as nat, name@) is None,
            },
    {
        let mut index = self.curregis;
        let mut left = distance;
        while left > 0
            invariant
                self.wf(),
                index < self.registry.len(),
                self@.hop(self@.current, distance as nat) == self@.hop(index as int, left as nat),
            decreases left,
        {
            assert(self@.frames[index as int] == self.registry[index as int]@);
            match self.registry[index].ancestor {
                Some(ancestor) => {
                    index = ancestor;
                    left = left - 1;
                },
                None => {
                    return None;
                },
            }
        }
        assert(self@.frames[index as int] == self.registry[index as int]@);
        match self.registry[index].position(name) {
            Some(entry) => Some((index, entry)),
            None => None,
        }
    }

    /// The value of `name` in the frame exactly `distance` steps from the
    /// current one; no other frame is looked at.
    pub fn get_at(&self, distance: usize, name: &str) -> (r: Result<LoxValue, UndefinedVariable>)
        requires
            self.wf(),
        ensures
            match r {
                Ok(value) => self@.get_at(distance as nat, name@) == Some(value@),
                Err(_) => self@.get_at(distance as nat, name@) is None,
            },
    {
        let key = String::from_str(name);
        match self.locate(distance, &key) {
            Some((index, entry)) => {
                assert(self@.frames[index as int] == self.registry[index as int]@);
                Ok(self.registry[index].values[entry].clone())
            },
            None => Err(UndefinedVariable),
        }
    }

    /// Binds `name` to `value` in the frame exactly `distance` steps from the
    /// current one, if that frame binds it already; no other frame is looked
    /// at.
    pub fn assign_at(&mut self, distance: usize, name: &str, value: LoxValue) -> (r: Result<
        (),
        UndefinedVariable,
    >)
        requires
            old(self).wf(),
        ensures
            final(self).wf(),
            final(self)@.extends(old(self)@),
            match r {
                Ok(_) => old(self)@.assign_at(distance as nat, name@, value@) == Some(final(self)@),
                Err(_) => old(self)@.assign_at(distance as nat, name@, value@) is None && final(self)@
                    == old(self)@,
            },
    {
        let key = String::from_str(name);
        match self.locate(distance, &key) {
            Some((index, entry)) => {
                assert(self@.frames[index as int] == self.registry[index as int]@);
                self.registry[index].overwrite(entry, value);
                assert(self@.frames =~= old(self)@.bind(index as int, name@, value@).frames);
                Ok(())
            },
            None => Err(UndefinedVariable),
        }
    }
}

} // verus!
