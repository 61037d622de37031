//! Variable environments: a stack of binding frames giving lexical scope
//! for lambda invocation, and a single global frame for sigil-prefixed
//! names. A frame is a list of bindings with unique keys, viewed as a map
//! from variable name to value.

use vstd::prelude::*;
use crate::values::{Value, ValueView, val_vw_wf, value_view};

verus! {

/// One scope level of variable bindings.
pub struct Frame {
    pub variables: Vec<(String, Value)>,
}

/// The map a binding list denotes: later entries win, though well-formed
/// frames never hold a key twice.
pub open spec fn bindings_map(s: Seq<(String, Value)>) -> Map<Seq<char>, ValueView>
    decreases s,
    via bindings_map_decreases
{
    if s.len() == 0 {
        Map::empty()
    } else {
        bindings_map(s.drop_last()).insert(s.last().0@, value_view(s.last().1))
    }
}

#[via_fn]
proof fn bindings_map_decreases(s: Seq<(String, Value)>) {
    if s.len() > 0 {
        vstd::seq::axiom_seq_subrange_decreases(s, 0, s.len() - 1);
        assert(s.drop_last() == s.subrange(0, s.len() - 1));
    }
}

/// No key occurs twice.
pub open spec fn keys_unique(s: Seq<(String, Value)>) -> bool {
    forall|i: int, j: int| 0 <= i < j < s.len() ==> (#[trigger] s[i]).0@ != (#[trigger] s[j]).0@
}

impl Frame {
    /// The map of this frame.
    pub open spec fn view(&self) -> Map<Seq<char>, ValueView> {
        bindings_map(self.variables@)
    }

    /// Unique keys, and every stored value well-formed.
    pub open spec fn wf(&self) -> bool {
        &&& keys_unique(self.variables@)
        &&& forall|i: int| 0 <= i < self.variables@.len() ==> val_vw_wf(
            value_view((#[trigger] self.variables@[i]).1),
        )
    }
}

/// What `bindings_map` holds, entry by entry.
pub proof fn lemma_bindings_map_entries(s: Seq<(String, Value)>)
    ensures
        forall|k: Seq<char>| bindings_map(s).contains_key(k) <==> exists|i: int|
            0 <= i < s.len() && (#[trigger] s[i]).0@ == k,
        keys_unique(s) ==> forall|i: int| 0 <= i < s.len() ==> bindings_map(s)[(
        #[trigger] s[i]).0@] == value_view(s[i].1),
    decreases s,
{
    if s.len() > 0 {
        vstd::seq::axiom_seq_subrange_decreases(s, 0, s.len() - 1);
        assert(s.drop_last() == s.subrange(0, s.len() - 1));
        lemma_bindings_map_entries(s.drop_last());
        assert(forall|i: int| 0 <= i < s.len() - 1 ==> #[trigger] s[i] == s.drop_last()[i]);
        assert forall|k: Seq<char>| bindings_map(s).contains_key(k) implies exists|i: int|
            0 <= i < s.len() && (#[trigger] s[i]).0@ == k by {
            if k == s.last().0@ {
                assert(0 <= s.len() - 1 < s.len() && s[s.len() - 1].0@ == k);
            } else {
                let i = choose|i: int| 0 <= i < s.drop_last().len() && (#[trigger] s.drop_last()[i]).0@
                    == k;
                assert(s[i].0@ == k);
            }
        }
        if keys_unique(s) {
            assert(keys_unique(s.drop_last()));
            assert forall|i: int| 0 <= i < s.len() implies bindings_map(s)[(#[trigger] s[i]).0@]
                == value_view(s[i].1) by {
                if i < s.len() - 1 {
                    assert(s[i].0@ != s.last().0@);
                    assert(bindings_map(s.drop_last())[s.drop_last()[i].0@] == value_view(
                        s.drop_last()[i].1,
                    ));
                }
            }
        }
    }
}

impl Frame {
    /// An empty frame.
    pub fn new() -> (r: Frame)
        ensures
            r@ == Map::<Seq<char>, ValueView>::empty(),
            r.wf(),
    {
        Frame { variables: Vec::new() }
    }

    /// Binds `name` to `value`, replacing any existing binding.
    #[verifier::loop_isolation(false)]
    pub fn set_variable(&mut self, name: String, value: Value)
        requires
            old(self).wf(),
            val_vw_wf(value@),
        ensures
            final(self)@ == old(self)@.insert(name@, value@),
            final(self).wf(),
    {
        let n = self.variables.len();
        let mut i: usize = 0;
        proof {
            lemma_bindings_map_entries(self.variables@);
        }
        while i < n
            invariant
                i <= n,
                self.variables@ == old(self).variables@,
                forall|j: int| 0 <= j < i ==> (#[trigger] self.variables@[j]).0@ != name@,
        decreases n - i,
        {
            if self.variables[i].0.eq(&name) {
                let ghost old_vars = self.variables@;
                self.variables.remove(i);
                self.variables.insert(i, (name, value));
                proof {
                    let ghost new_vars = self.variables@;
                    assert(new_vars =~= old_vars.update(i as int, (name, value)));
                    assert(forall|j: int| 0 <= j < new_vars.len() && j != i ==> #[trigger] new_vars[j]
                        == old_vars[j]);
                    lemma_bindings_map_update(old_vars, i as int, (name, value));
                    lemma_bindings_map_entries(new_vars);
                }
                return;
            }
            i = i + 1;
        }
        let ghost old_vars = self.variables@;
        self.variables.push((name, value));
        proof {
            assert(self.variables@.drop_last() =~= old_vars);
            assert(bindings_map(self.variables@) == bindings_map(old_vars).insert(name@, value@));
            assert(forall|j: int| 0 <= j < old_vars.len() ==> #[trigger] self.variables@[j]
                == old_vars[j]);
            assert(self.variables@.last() == (name, value));
        }
    }

    /// Looks a name up.
    #[verifier::loop_isolation(false)]
    pub fn resolve_variable(&self, name: &String) -> (r: Option<Value>)
        requires
            self.wf(),
        ensures
            self@.contains_key(name@) ==> r is Some && r->0@ == self@[name@] && val_vw_wf(r->0@),
            !self@.contains_key(name@) ==> r is None,
    {
        let n = self.variables.len();
        let mut i: usize = 0;
        proof {
            lemma_bindings_map_entries(self.variables@);
        }
        while i < n
            invariant
                i <= n,
                n == self.variables@.len(),
                forall|j: int| 0 <= j < i ==> (#[trigger] self.variables@[j]).0@ != name@,
            decreases n - i,
        {
            if self.variables[i].0.eq(name) {
                let v = self.variables[i].1.duplicate();
                return Some(v);
            }
            i = i + 1;
        }
        proof {
            if self@.contains_key(name@) {
                let j = choose|j: int| 0 <= j < self.variables@.len() && (
                #[trigger] self.variables@[j]).0@ == name@;
                assert(false);
            }
        }
        None
    }

    /// Removes any binding of `name`.
    #[verifier::loop_isolation(false)]
    pub fn remove_variable(&mut self, name: &String)
        requires
            old(self).wf(),
        ensures
            final(self)@ == old(self)@.remove(name@),
            final(self).wf(),
    {
        let n = self.variables.len();
        let mut i: usize = 0;
        proof {
            lemma_bindings_map_entries(self.variables@);
        }
        while i < n
            invariant
                i <= n,
                self.variables@ == old(self).variables@,
                forall|j: int| 0 <= j < i ==> (#[trigger] self.variables@[j]).0@ != name@,
            decreases n - i,
        {
            if self.variables[i].0.eq(name) {
                let ghost old_vars = self.variables@;
                self.variables.remove(i);
                proof {
                    lemma_bindings_map_remove(old_vars, i as int);
                    lemma_bindings_map_entries(self.variables@);
                    assert(forall|j: int| 0 <= j < i ==> #[trigger] self.variables@[j]
                        == old_vars[j]);
                    assert(forall|j: int| i <= j < self.variables@.len()
                        ==> #[trigger] self.variables@[j] == old_vars[j + 1]);
                }
                return;
            }
            i = i + 1;
        }
        proof {
            if self@.contains_key(name@) {
                let j = choose|j: int| 0 <= j < self.variables@.len() && (
                #[trigger] self.variables@[j]).0@ == name@;
                assert(false);
            }
            assert(self@ =~= self@.remove(name@));
        }
    }
}

/// Updating one entry of a unique-keyed list updates the map at its key.
proof fn lemma_bindings_map_update(s: Seq<(String, Value)>, i: int, e: (String, Value))
    requires
        0 <= i < s.len(),
        keys_unique(s),
        s[i].0@ == e.0@,
    ensures
        bindings_map(s.update(i, e)) == bindings_map(s).insert(e.0@, value_view(e.1)),
    decreases s,
{
    if s.len() > 0 {
        vstd::seq::axiom_seq_subrange_decreases(s, 0, s.len() - 1);
        assert(s.drop_last() == s.subrange(0, s.len() - 1));
        if i == s.len() - 1 {
            assert(s.update(i, e).drop_last() =~= s.drop_last());
            assert(s.update(i, e).last() == e);
            assert(bindings_map(s.update(i, e)) =~= bindings_map(s).insert(
                e.0@,
                value_view(e.1),
            ));
        } else {
            assert(keys_unique(s.drop_last()));
            assert(s.drop_last()[i] == s[i]);
            lemma_bindings_map_update(s.drop_last(), i, e);
            assert(s.update(i, e).drop_last() =~= s.drop_last().update(i, e));
            assert(s.update(i, e).last() == s.last());
            assert(s[i].0@ != s.last().0@);
            assert(bindings_map(s.update(i, e)) =~= bindings_map(s).insert(
                e.0@,
                value_view(e.1),
            ));
        }
    }
}

/// Removing the only entry with a key removes it from the map.
proof fn lemma_bindings_map_remove(s: Seq<(String, Value)>, i: int)
    requires
        0 <= i < s.len(),
        keys_unique(s),
    ensures
        bindings_map(s.remove(i)) == bindings_map(s).remove(s[i].0@),
    decreases s,
{
    if s.len() > 0 {
        vstd::seq::axiom_seq_subrange_decreases(s, 0, s.len() - 1);
        assert(s.drop_last() == s.subrange(0, s.len() - 1));
        lemma_bindings_map_entries(s.drop_last());
        if i == s.len() - 1 {
            assert(s.remove(i) =~= s.drop_last());
            assert(!bindings_map(s.drop_last()).contains_key(s[i].0@)) by {
                if bindings_map(s.drop_last()).contains_key(s[i].0@) {
                    let j = choose|j: int| 0 <= j < s.drop_last().len() && (
                    #[trigger] s.drop_last()[j]).0@ == s[i].0@;
                    assert(s[j].0@ == s[i].0@ && j < i);
                }
            }
            assert(bindings_map(s.remove(i)) =~= bindings_map(s).remove(s[i].0@));
        } else {
            assert(keys_unique(s.drop_last()));
            lemma_bindings_map_remove(s.drop_last(), i);
            assert(s.remove(i).drop_last() =~= s.drop_last().remove(i));
            assert(s.remove(i).last() == s.last());
            assert(s[i].0@ != s.last().0@);
            assert(bindings_map(s.remove(i)) =~= bindings_map(s).remove(s[i].0@));
        }
    }
}

/// A stack of frames: the scope for evaluation. The bottom frame is the
/// session scope; lambda invocation pushes and pops one frame.
pub struct Context {
    pub frames: Vec<Frame>,
}

/// The view of a context: the stack of frame maps, bottom first.
pub open spec fn ctx_view(frames: Seq<Frame>) -> Seq<Map<Seq<char>, ValueView>> {
    frames.map_values(|f: Frame| bindings_map(f.variables@))
}

/// Resolution against a stack of maps: the topmost frame that binds the
/// name wins.
pub open spec fn spec_stack_resolve(stack: Seq<Map<Seq<char>, ValueView>>, name: Seq<char>)
    -> Option<ValueView>
    decreases stack.len(),
{
    if stack.len() == 0 {
        None
    } else if stack.last().contains_key(name) {
        Some(stack.last()[name])
    } else {
        spec_stack_resolve(stack.drop_last(), name)
    }
}

impl Context {
    /// The view of the context.
    pub open spec fn view(&self) -> Seq<Map<Seq<char>, ValueView>> {
        ctx_view(self.frames@)
    }

    /// At least one frame, each well-formed.
    pub open spec fn wf(&self) -> bool {
        &&& self.frames@.len() >= 1
        &&& forall|i: int| 0 <= i < self.frames@.len() ==> (#[trigger] self.frames@[i]).wf()
    }

    /// A context of one empty frame.
    pub fn new() -> (r: Context)
        ensures
            r@ =~= seq![Map::<Seq<char>, ValueView>::empty()],
            r.wf(),
    {
        let mut frames: Vec<Frame> = Vec::new();
        frames.push(Frame::new());
        let r = Context { frames };
        proof {
            assert(r@ =~= seq![Map::<Seq<char>, ValueView>::empty()]);
        }
        r
    }

    /// Pushes a fresh empty frame.
    pub fn push_frame(&mut self)
        requires
            old(self).wf(),
        ensures
            final(self)@ == old(self)@.push(Map::<Seq<char>, ValueView>::empty()),
            final(self).wf(),
    {
        self.frames.push(Frame::new());
        proof {
            assert(self@ =~= old(self)@.push(Map::<Seq<char>, ValueView>::empty()));
        }
    }

    /// Pops the topmost frame; on a single-frame context it pops that one,
    /// leaving the stack empty only until the next push.
    pub fn pop_frame(&mut self)
        requires
            old(self).wf(),
        ensures
            final(self)@ == old(self)@.drop_last(),
            final(self).frames@.len() == old(self).frames@.len() - 1,
            forall|i: int| 0 <= i < final(self).frames@.len() ==> (
            #[trigger] final(self).frames@[i]).wf(),
    {
        let popped = self.frames.pop();
        proof {
            assert(self@ =~= old(self)@.drop_last());
        }
    }

    /// Binds `name` to `value` in the topmost frame.
    pub fn set_variable(&mut self, name: String, value: Value)
        requires
            old(self).wf(),
            val_vw_wf(value@),
        ensures
            final(self)@ == old(self)@.update(
                old(self)@.len() - 1,
                old(self)@.last().insert(name@, value@),
            ),
            final(self).wf(),
            final(self).frames@.len() == old(self).frames@.len(),
    {
        let last = self.frames.len() - 1;
        let mut f = match self.frames.pop() {
            Some(f) => f,
            None => Frame::new(),
        };
        f.set_variable(name, value);
        self.frames.push(f);
        proof {
            assert(self@ =~= old(self)@.update(
                old(self)@.len() - 1,
                old(self)@.last().insert(name@, value@),
            ));
        }
    }

    /// Resolves a name against the stack, topmost frame first.
    #[verifier::loop_isolation(false)]
    pub fn resolve_variable(&self, name: &String) -> (r: Option<Value>)
        requires
            self.wf(),
        ensures
            match spec_stack_resolve(self@, name@) {
                Some(v) => r is Some && r->0@ == v && val_vw_wf(r->0@),
                None => r is None,
            },
    {
        let n = self.frames.len();
        let mut i: usize = n;
        proof {
            assert(self@.subrange(0, n as int) =~= self@);
        }
        while i > 0
            invariant
                i <= n,
                n == self.frames@.len(),
                spec_stack_resolve(self@, name@) == spec_stack_resolve(
                    self@.subrange(0, i as int),
                    name@,
                ),
            decreases i,
        {
            i = i - 1;
            let hit = self.frames[i].resolve_variable(name);
            proof {
                assert(self@.subrange(0, i + 1).last() == self@[i as int]);
                assert(self@.subrange(0, i + 1).drop_last() =~= self@.subrange(0, i as int));
                assert(self@[i as int] == bindings_map(self.frames@[i as int].variables@));
            }
            match hit {
                Some(v) => {
                    return Some(v);
                },
                None => {},
            }
        }
        proof {
            assert(self@.subrange(0, 0) =~= Seq::<Map<Seq<char>, ValueView>>::empty());
        }
        None
    }

    /// Removes any binding of `name` from the topmost frame.
    pub fn remove_variable(&mut self, name: &String)
        requires
            old(self).wf(),
        ensures
            final(self)@ == old(self)@.update(
                old(self)@.len() - 1,
                old(self)@.last().remove(name@),
            ),
            final(self).wf(),
            final(self).frames@.len() == old(self).frames@.len(),
    {
        let mut f = match self.frames.pop() {
            Some(f) => f,
            None => Frame::new(),
        };
        f.remove_variable(name);
        self.frames.push(f);
        proof {
            assert(self@ =~= old(self)@.update(
                old(self)@.len() - 1,
                old(self)@.last().remove(name@),
            ));
        }
    }
}

impl Default for Context {
    /// The session context: one frame in which `i` is bound to the
    /// imaginary unit.
    fn default() -> (r: Context)
        ensures
            r@ =~= seq![
                Map::<Seq<char>, ValueView>::empty().insert(
                    "i"@,
                    ValueView::Number((((0int, 1int), (1int, 1int)))),
                ),
            ],
            r.wf(),
    {
        let mut ctx = Context::new();
        let unit = crate::complex::Complex {
            re: crate::rational::Rational::zero(),
            im: crate::rational::Rational::from_int(1),
        };
        proof {
            crate::rational::lemma_gcd_one(1);
        }
        ctx.set_variable("i".to_owned(), Value::Number(unit));
        proof {
            assert(ctx@ =~= seq![
                Map::<Seq<char>, ValueView>::empty().insert(
                    "i"@,
                    ValueView::Number((((0int, 1int), (1int, 1int)))),
                ),
            ]);
        }
        ctx
    }
}

/// The process-wide frame for sigil-prefixed names. The surrounding
/// program owns one instance and shares it between evaluations; its
/// synchronization lives outside the verified core.
pub struct GlobalContext {
    pub frame: Frame,
}

impl GlobalContext {
    /// The map of global bindings.
    pub open spec fn view(&self) -> Map<Seq<char>, ValueView> {
        bindings_map(self.frame.variables@)
    }

    pub open spec fn wf(&self) -> bool {
        self.frame.wf()
    }

    /// An empty global frame.
    pub fn new() -> (r: GlobalContext)
        ensures
            r@ == Map::<Seq<char>, ValueView>::empty(),
            r.wf(),
    {
        GlobalContext { frame: Frame::new() }
    }

    /// Binds a global name.
    pub fn set_variable(&mut self, name: String, value: Value)
        requires
            old(self).wf(),
            val_vw_wf(value@),
        ensures
            final(self)@ == old(self)@.insert(name@, value@),
            final(self).wf(),
    {
        self.frame.set_variable(name, value);
    }

    /// Looks a global name up.
    pub fn resolve_variable(&self, name: &String) -> (r: Option<Value>)
        requires
            self.wf(),
        ensures
            self@.contains_key(name@) ==> r is Some && r->0@ == self@[name@] && val_vw_wf(r->0@),
            !self@.contains_key(name@) ==> r is None,
    {
        self.frame.resolve_variable(name)
    }
}

} // verus!
