//! A set of environment variables.

use vstd::prelude::*;

use crate::text::{copy_of, same_text, Text};

verus! {

/// Variables and what they hold.
pub type Vars = Map<Text, Text>;

/// One variable and what it holds.
pub struct Var {
    pub key: String,
    pub value: String,
}

/// Environment variables by name. Where a name was given more than once, the
/// last value counts.
pub struct Env {
    vars: Vec<Var>,
}

/// What a list of variables amounts to, the later ones overriding the earlier.
pub open spec fn vars_map(vars: Seq<Var>) -> Vars
    decreases vars.len(),
{
    if vars.len() == 0 {
        Map::empty()
    } else {
        vars_map(vars.drop_last()).insert(vars.last().key@, vars.last().value@)
    }
}

impl View for Env {
    type V = Vars;

    closed spec fn view(&self) -> Vars {
        vars_map(self.vars@)
    }
}

/// What a variable holds, if it is set.
pub open spec fn lookup(env: Vars, key: Text) -> Option<Text> {
    if env.dom().contains(key) {
        Some(env[key])
    } else {
        None
    }
}

impl Env {
    /// No variables at all.
    pub fn new() -> (r: Env)
        ensures
            r@ == Vars::empty(),
    {
        Env { vars: Vec::new() }
    }

    /// The variables listed, the later ones overriding the earlier.
    pub fn from_vars(vars: Vec<Var>) -> (r: Env)
        ensures
            r@ == vars_map(vars@),
    {
        Env { vars }
    }

    /// Sets `key` to `value`.
    pub fn insert(&mut self, key: String, value: String)
        ensures
            final(self)@ == old(self)@.insert(key@, value@),
    {
        let ghost before = self.vars@;
        self.vars.push(Var { key, value });
        assert(self.vars@.drop_last() =~= before);
    }

    /// What `key` holds, if it is set.
    pub fn get(&self, key: &str) -> (r: Option<&String>)
        ensures
            match r {
                Some(v) => lookup(self@, key@) == Some(v@),
                None => lookup(self@, key@) is None,
            },
    {
        let mut n: usize = self.vars.len();
        assert(self.vars@.take(n as int) =~= self.vars@);
        while n > 0
            invariant
                n <= self.vars@.len(),
                lookup(self@, key@) == lookup(vars_map(self.vars@.take(n as int)), key@),
            decreases n,
        {
            let ghost part = self.vars@.take(n as int);
            assert(part.drop_last() =~= self.vars@.take(n - 1));
            if same_text(self.vars[n - 1].key.as_str(), key) {
                return Some(&self.vars[n - 1].value);
            }
            n -= 1;
        }
        None
    }

    /// Unsets `key`.
    pub fn remove(&mut self, key: &str)
        ensures
            final(self)@ == old(self)@.remove(key@),
    {
        let mut kept: Vec<Var> = Vec::new();
        let mut i: usize = 0;
        assert(vars_map(kept@) =~= vars_map(self.vars@.take(0)).remove(key@));
        while i < self.vars.len()
            invariant
                i <= self.vars@.len(),
                vars_map(kept@) == vars_map(self.vars@.take(i as int)).remove(key@),
            decreases self.vars@.len() - i,
        {
            let ghost part = self.vars@.take(i + 1);
            assert(part.drop_last() =~= self.vars@.take(i as int));
            let ghost before = kept@;
            if !same_text(self.vars[i].key.as_str(), key) {
                kept.push(
                    Var { key: copy_of(&self.vars[i].key), value: copy_of(&self.vars[i].value) },
                );
                assert(kept@.drop_last() =~= before);
            }
            assert(vars_map(kept@) =~= vars_map(part).remove(key@));
            i += 1;
        }
        assert(self.vars@.take(i as int) =~= self.vars@);
        self.vars = kept;
    }

    /// The same variables again.
    pub fn copy(&self) -> (r: Env)
        ensures
            r@ == self@,
    {
        let mut vars: Vec<Var> = Vec::new();
        let mut i: usize = 0;
        assert(self.vars@.take(0) =~= Seq::<Var>::empty());
        while i < self.vars.len()
            invariant
                i <= self.vars@.len(),
                vars_map(vars@) == vars_map(self.vars@.take(i as int)),
            decreases self.vars@.len() - i,
        {
            let ghost part = self.vars@.take(i + 1);
            assert(part.drop_last() =~= self.vars@.take(i as int));
            let ghost before = vars@;
            vars.push(
                Var { key: copy_of(&self.vars[i].key), value: copy_of(&self.vars[i].value) },
            );
            assert(vars@.drop_last() =~= before);
            i += 1;
        }
        assert(self.vars@.take(i as int) =~= self.vars@);
        Env { vars }
    }
}

} // verus!
