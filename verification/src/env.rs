//! Lexical environments: frames of bindings, each with the frame that
//! encloses it, kept together in one store and named by their index.
//!
//! A closure names the frame in which it was made; every frame that a call
//! creates stays in the store, so a captured frame is there for as long as the
//! store is.

use vstd::prelude::*;
use crate::error::{Fault, LispErr};
use crate::lispval::{view_all, view_names, LispVal, Value};

verus! {

/// The model of one frame: the frame that encloses it, and what it binds.
pub struct Scope {
    pub parent: Option<nat>,
    pub vars: Map<Seq<char>, Value>,
}

/// The model of an environment: its frames, and the texts that `load` can
/// read, by name.
pub struct Store {
    pub frames: Seq<Scope>,
    pub resources: Map<Seq<char>, Seq<char>>,
}

/// The store of a new environment: one root frame that binds nothing, and no
/// resource.
pub open spec fn fresh_store() -> Store {
    Store {
        frames: seq![Scope { parent: None, vars: Map::empty() }],
        resources: Map::empty(),
    }
}

impl Store {
    /// Every frame is enclosed by an earlier one, so no chain of frames turns
    /// back on itself.
    pub open spec fn well_formed(self) -> bool {
        forall|i: int|
            0 <= i < self.frames.len() ==> match (#[trigger] self.frames[i]).parent {
                Some(p) => p < i,
                None => true,
            }
    }

    /// The innermost frame, from `frame` outwards, that binds `name`.
    pub open spec fn resolve(self, frame: nat, name: Seq<char>) -> Option<nat>
        decreases frame,
    {
        if frame >= self.frames.len() {
            None
        } else if self.frames[frame as int].vars.contains_key(name) {
            Some(frame)
        } else {
            match self.frames[frame as int].parent {
                Some(p) => if p < frame {
                    self.resolve(p, name)
                } else {
                    None
                },
                None => None,
            }
        }
    }

    /// What `name` stands for in `frame`: its innermost binding.
    pub open spec fn lookup(self, frame: nat, name: Seq<char>) -> Option<Value> {
        match self.resolve(frame, name) {
            Some(f) => Some(self.frames[f as int].vars[name]),
            None => None,
        }
    }

    /// The store in which `frame` itself binds `name` to `v`; every other
    /// frame and every other name is as before. Where `frame` is no frame of
    /// the store, nothing changes.
    pub open spec fn define(self, frame: nat, name: Seq<char>, v: Value) -> Store {
        if frame < self.frames.len() {
            Store {
                frames: self.frames.update(
                    frame as int,
                    Scope {
                        parent: self.frames[frame as int].parent,
                        vars: self.frames[frame as int].vars.insert(name, v),
                    },
                ),
                resources: self.resources,
            }
        } else {
            self
        }
    }

    /// The store in which the innermost binding of `name`, seen from `frame`,
    /// is `v`; none where no frame of the chain binds `name`.
    pub open spec fn assign(self, frame: nat, name: Seq<char>, v: Value) -> Option<Store> {
        match self.resolve(frame, name) {
            Some(f) => Some(self.define(f, name, v)),
            None => None,
        }
    }

    /// The store with one more frame, empty and enclosed by `parent`. Its index
    /// is the number of frames before.
    pub open spec fn child(self, parent: nat) -> Store {
        Store {
            frames: self.frames.push(Scope { parent: Some(parent), vars: Map::empty() }),
            resources: self.resources,
        }
    }

    /// The store in which `load` reads `text` under `name`.
    pub open spec fn with_resource(self, name: Seq<char>, text: Seq<char>) -> Store {
        Store { frames: self.frames, resources: self.resources.insert(name, text) }
    }

    /// The frame that `resolve` finds is `frame` or an earlier one, is a frame
    /// of the store and binds the name.
    pub proof fn lemma_resolve(self, frame: nat, name: Seq<char>)
        ensures
            match self.resolve(frame, name) {
                Some(f) => {
                    &&& f <= frame
                    &&& f < self.frames.len()
                    &&& self.frames[f as int].vars.contains_key(name)
                },
                None => true,
            },
        decreases frame,
    {
        if frame < self.frames.len() && !self.frames[frame as int].vars.contains_key(name) {
            match self.frames[frame as int].parent {
                Some(p) => {
                    if p < frame {
                        self.lemma_resolve(p, name);
                    }
                },
                None => {},
            }
        }
    }
}

/// The finite map that a list of names and a list of values of the same
/// length stand for; a later pair overrides an earlier one.
pub open spec fn bindings<V>(names: Seq<Seq<char>>, values: Seq<V>) -> Map<Seq<char>, V>
    decreases names.len(),
{
    if names.len() == 0 || names.len() != values.len() {
        Map::empty()
    } else {
        bindings(names.drop_last(), values.drop_last()).insert(names.last(), values.last())
    }
}

/// No name occurs twice.
pub open spec fn distinct(names: Seq<Seq<char>>) -> bool {
    forall|i: int, j: int| 0 <= i < j < names.len() ==> names[i] != names[j]
}

/// The names that `bindings` binds are those of the list.
pub proof fn lemma_bindings_dom<V>(names: Seq<Seq<char>>, values: Seq<V>, k: Seq<char>)
    requires
        names.len() == values.len(),
    ensures
        bindings(names, values).contains_key(k) <==> exists|i: int|
            0 <= i < names.len() && names[i] == k,
    decreases names.len(),
{
    if names.len() > 0 {
        let ns = names.drop_last();
        let vs = values.drop_last();
        lemma_bindings_dom(ns, vs, k);
        if bindings(names, values).contains_key(k) {
            if names.last() == k {
                assert(names[names.len() - 1] == k);
            } else {
                let i = choose|i: int| 0 <= i < ns.len() && ns[i] == k;
                assert(names[i] == k);
            }
        }
        if exists|i: int| 0 <= i < names.len() && names[i] == k {
            let i = choose|i: int| 0 <= i < names.len() && names[i] == k;
            if i < ns.len() {
                assert(ns[i] == k);
            }
        }
    }
}

/// Where no name occurs twice, each name is bound to the value at its index.
pub proof fn lemma_bindings_at<V>(names: Seq<Seq<char>>, values: Seq<V>, i: int)
    requires
        names.len() == values.len(),
        distinct(names),
        0 <= i < names.len(),
    ensures
        bindings(names, values).contains_key(names[i]),
        bindings(names, values)[names[i]] == values[i],
    decreases names.len(),
{
    if i < names.len() - 1 {
        let ns = names.drop_last();
        let vs = values.drop_last();
        assert(distinct(ns)) by {
            assert forall|a: int, b: int| 0 <= a < b < ns.len() implies ns[a] != ns[b] by {
                assert(names[a] != names[b]);
            }
        }
        lemma_bindings_at(ns, vs, i);
        assert(names[i] != names.last());
    }
}

/// Where no name occurs twice, to replace the value at an index is to bind its
/// name anew.
pub proof fn lemma_bindings_update<V>(names: Seq<Seq<char>>, values: Seq<V>, i: int, v: V)
    requires
        names.len() == values.len(),
        distinct(names),
        0 <= i < names.len(),
    ensures
        bindings(names, values.update(i, v)) == bindings(names, values).insert(names[i], v),
    decreases names.len(),
{
    let ns = names.drop_last();
    let vs = values.drop_last();
    if i < names.len() - 1 {
        assert(distinct(ns)) by {
            assert forall|a: int, b: int| 0 <= a < b < ns.len() implies ns[a] != ns[b] by {
                assert(names[a] != names[b]);
            }
        }
        lemma_bindings_update(ns, vs, i, v);
        assert(values.update(i, v).drop_last() =~= vs.update(i, v));
        assert(names[i] != names.last());
        assert(bindings(names, values.update(i, v)) =~= bindings(names, values).insert(
            names[i],
            v,
        ));
    } else {
        assert(values.update(i, v).drop_last() =~= vs);
        assert(bindings(names, values.update(i, v)) =~= bindings(names, values).insert(
            names[i],
            v,
        ));
    }
}

/// One more pair at the end binds its name.
pub proof fn lemma_bindings_push<V>(names: Seq<Seq<char>>, values: Seq<V>, n: Seq<char>, v: V)
    requires
        names.len() == values.len(),
    ensures
        bindings(names.push(n), values.push(v)) == bindings(names, values).insert(n, v),
{
    assert(names.push(n).drop_last() =~= names);
    assert(values.push(v).drop_last() =~= values);
}

/// One frame: the index of the frame that encloses it, and its bindings as two
/// lists of the same length, in which no name occurs twice.
#[derive(Debug)]
struct Frame {
    parent: Option<usize>,
    names: Vec<String>,
    values: Vec<LispVal>,
}

impl Frame {
    /// Each name has its value, and no name occurs twice.
    spec fn wf(&self) -> bool {
        &&& self.names.len() == self.values.len()
        &&& distinct(view_names(self.names@))
    }

    /// The model of the frame.
    spec fn scope(&self) -> Scope {
        Scope {
            parent: match self.parent {
                Some(p) => Some(p as nat),
                None => None,
            },
            vars: bindings(view_names(self.names@), view_all(self.values@)),
        }
    }
}

/// The index at which `names` holds `key`.
fn position(names: &Vec<String>, key: &String) -> (r: Option<usize>)
    ensures
        match r {
            Some(i) => i < names.len() && names[i as int]@ == key@,
            None => forall|i: int| 0 <= i < names.len() ==> names[i]@ != key@,
        },
{
    let mut i: usize = 0;
    while i < names.len()
        invariant
            i <= names.len(),
            forall|j: int| 0 <= j < i ==> names[j]@ != key@,
        decreases names.len() - i,
    {
        if names[i] == *key {
            return Some(i);
        }
        i += 1;
    }
    None
}

/// An environment: the frames made so far, each named by its index, and the
/// texts that `load` can read.
#[derive(Debug)]
pub struct Env {
    frames: Vec<Frame>,
    resource_names: Vec<String>,
    resource_texts: Vec<String>,
}

impl View for Env {
    type V = Store;

    closed spec fn view(&self) -> Store {
        Store {
            frames: Seq::new(self.frames.len() as nat, |i: int| self.frames[i].scope()),
            resources: bindings(
                view_names(self.resource_names@),
                view_names(self.resource_texts@),
            ),
        }
    }
}

impl Env {
    /// The invariant of an environment: in each frame no name is bound twice,
    /// no resource is named twice, and each frame is enclosed by an earlier one.
    pub closed spec fn wf(&self) -> bool {
        &&& forall|i: int| 0 <= i < self.frames.len() ==> (#[trigger] self.frames[i]).wf()
        &&& forall|i: int|
            0 <= i < self.frames.len() ==> match (#[trigger] self.frames[i]).parent {
                Some(p) => p < i,
                None => true,
            }
        &&& self.resource_names.len() == self.resource_texts.len()
        &&& distinct(view_names(self.resource_names@))
    }

    /// The model of a well-formed environment is a well-formed store.
    pub proof fn law_model_is_well_formed(&self)
        requires
            self.wf(),
        ensures
            self@.well_formed(),
    {
        assert forall|i: int| 0 <= i < self@.frames.len() implies match (
        #[trigger] self@.frames[i]).parent {
            Some(p) => p < i,
            None => true,
        } by {
            assert(self.frames[i].wf());
        }
    }

    /// An environment with one root frame, which binds nothing.
    pub fn new() -> (env: Env)
        ensures
            env.wf(),
            env@ == fresh_store(),
    {
        let root = Frame { parent: None, names: Vec::new(), values: Vec::new() };
        let mut frames: Vec<Frame> = Vec::new();
        frames.push(root);
        let env = Env { frames, resource_names: Vec::new(), resource_texts: Vec::new() };
        proof {
            assert(view_names(root.names@) =~= Seq::empty());
            assert(env@.frames =~= fresh_store().frames);
            assert(view_names(env.resource_names@) =~= Seq::empty());
            assert(env@.resources =~= fresh_store().resources);
        }
        env
    }

    /// The number of frames.
    pub fn frame_count(&self) -> (n: usize)
        ensures
            n == self@.frames.len(),
    {
        self.frames.len()
    }

    /// Adds an empty frame enclosed by `parent` and returns its index.
    pub fn child(&mut self, parent: usize) -> (id: usize)
        requires
            old(self).wf(),
            parent < old(self)@.frames.len(),
        ensures
            final(self).wf(),
            id == old(self)@.frames.len(),
            final(self)@ == old(self)@.child(parent as nat),
    {
        let id = self.frames.len();
        let frame = Frame { parent: Some(parent), names: Vec::new(), values: Vec::new() };
        self.frames.push(frame);
        proof {
            assert(view_names(frame.names@) =~= Seq::empty());
            assert(self@.frames =~= old(self)@.child(parent as nat).frames);
        }
        id
    }

    /// The innermost frame, from `frame` outwards, that binds `key`, and the
    /// index of the binding in it.
    fn locate(&self, frame: usize, key: &String) -> (r: Option<(usize, usize)>)
        requires
            self.wf(),
            frame < self@.frames.len(),
        ensures
            match r {
                Some((f, i)) => {
                    &&& self@.resolve(frame as nat, key@) == Some(f as nat)
                    &&& f < self.frames.len()
                    &&& i < self.frames[f as int].names.len()
                    &&& self.frames[f as int].names[i as int]@ == key@
                },
                None => self@.resolve(frame as nat, key@) is None,
            },
    {
        let mut f: usize = frame;
        loop
            invariant
                self.wf(),
                f < self.frames.len(),
                self@.resolve(frame as nat, key@) == self@.resolve(f as nat, key@),
            decreases f,
        {
            let here = &self.frames[f];
            let found = position(&here.names, key);
            proof {
                assert(here.wf());
                lemma_bindings_dom(view_names(here.names@), view_all(here.values@), key@);
            }
            match found {
                Some(i) => {
                    assert(view_names(here.names@)[i as int] == key@);
                    return Some((f, i));
                },
                None => {
                    assert(!self@.frames[f as int].vars.contains_key(key@));
                    match here.parent {
                        Some(p) => {
                            f = p;
                        },
                        None => {
                            return None;
                        },
                    }
                },
            }
        }
    }

    /// What `name` stands for in `frame`: its innermost binding.
    pub fn get(&self, frame: usize, name: &str) -> (r: Option<LispVal>)
        requires
            self.wf(),
            frame < self@.frames.len(),
        ensures
            match r {
                Some(v) => self@.lookup(frame as nat, name@) == Some(v@),
                None => self@.lookup(frame as nat, name@) is None,
            },
    {
        let key = String::from_str(name);
        match self.locate(frame, &key) {
            Some((f, i)) => {
                let here = &self.frames[f];
                proof {
                    assert(here.wf());
                    lemma_bindings_at(view_names(here.names@), view_all(here.values@), i as int);
                }
                Some(here.values[i].clone())
            },
            None => None,
        }
    }

    /// Binds `name` to `val` in `frame` itself, whatever the enclosing frames
    /// bind, and returns the value.
    pub fn define(&mut self, frame: usize, name: &str, val: LispVal) -> (r: Result<
        LispVal,
        LispErr,
    >)
        requires
            old(self).wf(),
            frame < old(self)@.frames.len(),
        ensures
            final(self).wf(),
            final(self)@ == old(self)@.define(frame as nat, name@, val@),
            r is Ok,
            r->Ok_0@ == val@,
    {
        let key = String::from_str(name);
        let kept = val.clone();
        let found = position(&self.frames[frame].names, &key);
        self.put(frame, found, key, val);
        Ok(kept)
    }

    /// Writes the binding of `key` in `frame`: at index `at` where the frame
    /// holds the name, at the end where it does not.
    fn put(&mut self, frame: usize, at: Option<usize>, key: String, val: LispVal)
        requires
            old(self).wf(),
            frame < old(self).frames.len(),
            match at {
                Some(i) => i < old(self).frames[frame as int].names.len() && old(
                    self,
                ).frames[frame as int].names[i as int]@ == key@,
                None => forall|i: int|
                    0 <= i < old(self).frames[frame as int].names.len() ==> old(
                        self,
                    ).frames[frame as int].names[i]@ != key@,
            },
        ensures
            final(self).wf(),
            final(self)@ == old(self)@.define(frame as nat, key@, val@),
    {
        let ghost before = self.frames[frame as int];
        let ghost ns = view_names(before.names@);
        let ghost vs = view_all(before.values@);
        assert(before.wf());
        match at {
            Some(i) => {
                self.frames[frame].values[i] = val;
                proof {
                    let after = self.frames[frame as int];
                    assert(after.names == before.names);
                    assert(view_all(after.values@) =~= vs.update(i as int, val@));
                    lemma_bindings_update(ns, vs, i as int, val@);
                    assert(ns[i as int] == key@);
                }
            },
            None => {
                self.frames[frame].names.push(key);
                self.frames[frame].values.push(val);
                proof {
                    let after = self.frames[frame as int];
                    assert(view_names(after.names@) =~= ns.push(key@));
                    assert(view_all(after.values@) =~= vs.push(val@));
                    lemma_bindings_push(ns, vs, key@, val@);
                    assert(distinct(ns.push(key@)));
                }
            },
        }
        proof {
            assert(forall|i: int|
                0 <= i < self.frames.len() && i != frame ==> self.frames[i] == old(
                    self,
                ).frames[i]);
            assert(self@.frames =~= old(self)@.define(frame as nat, key@, val@).frames);
        }
    }

    /// Rebinds `name` where it is bound, in the innermost frame from `frame`
    /// outwards, and returns the value; binds nothing anew, and fails where no
    /// frame of the chain binds the name.
    pub fn set(&mut self, frame: usize, name: &str, val: LispVal) -> (r: Result<LispVal, LispErr>)
        requires
            old(self).wf(),
            frame < old(self)@.frames.len(),
        ensures
            final(self).wf(),
            final(self)@.frames.len() == old(self)@.frames.len(),
            match old(self)@.assign(frame as nat, name@, val@) {
                Some(s) => final(self)@ == s && r is Ok && r->Ok_0@ == val@,
                None => final(self)@ == old(self)@ && r is Err && r->Err_0@
                    == Fault::UnboundVariable(name@),
            },
    {
        let key = String::from_str(name);
        match self.locate(frame, &key) {
            Some((f, i)) => {
                let kept = val.clone();
                self.put(f, Some(i), key, val);
                Ok(kept)
            },
            None => Err(LispErr::UnboundVariable(key)),
        }
    }

    /// Makes `text` the resource that `load` reads under `name`.
    pub fn add_resource(&mut self, name: &str, text: &str)
        requires
            old(self).wf(),
        ensures
            final(self).wf(),
            final(self)@ == old(self)@.with_resource(name@, text@),
    {
        let key = String::from_str(name);
        let content = String::from_str(text);
        let ghost ns = view_names(self.resource_names@);
        let ghost ts = view_names(self.resource_texts@);
        match position(&self.resource_names, &key) {
            Some(i) => {
                self.resource_texts[i] = content;
                proof {
                    assert(view_names(self.resource_texts@) =~= ts.update(i as int, text@));
                    lemma_bindings_update(ns, ts, i as int, text@);
                    assert(ns[i as int] == name@);
                }
            },
            None => {
                self.resource_names.push(key);
                self.resource_texts.push(content);
                proof {
                    assert(view_names(self.resource_names@) =~= ns.push(name@));
                    assert(view_names(self.resource_texts@) =~= ts.push(text@));
                    lemma_bindings_push(ns, ts, name@, text@);
                    assert(distinct(ns.push(name@)));
                }
            },
        }
        proof {
            assert(self@.frames =~= old(self)@.frames);
        }
    }

    /// The text that `load` reads under `name`.
    pub fn resource(&self, name: &str) -> (r: Option<String>)
        requires
            self.wf(),
        ensures
            match r {
                Some(t) => self@.resources.contains_key(name@) && self@.resources[name@] == t@,
                None => !self@.resources.contains_key(name@),
            },
    {
        let key = String::from_str(name);
        let ghost ns = view_names(self.resource_names@);
        let ghost ts = view_names(self.resource_texts@);
        proof {
            lemma_bindings_dom(ns, ts, name@);
        }
        match position(&self.resource_names, &key) {
            Some(i) => {
                proof {
                    lemma_bindings_at(ns, ts, i as int);
                    assert(ns[i as int] == name@);
                }
                Some(self.resource_texts[i].clone())
            },
            None => None,
        }
    }
}

} // verus!
