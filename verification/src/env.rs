//! The default render environment and the slot that keeps one per execution
//! context.

use std::rc::Rc;
use vstd::prelude::*;

verus! {

/// The settings of a render environment.
#[derive(Debug)]
pub struct Environment {
    /// How deeply templates and calls may nest.
    pub recursion_limit: usize,
    /// Whether the newline that ends a template is kept.
    pub keep_trailing_newline: bool,
    /// Whether the first newline after a block is removed.
    pub trim_blocks: bool,
    /// Whether leading white space before a block is removed.
    pub lstrip_blocks: bool,
}

impl Environment {
    /// The settings that an environment starts with.
    pub open spec fn default_settings() -> Environment {
        Environment {
            recursion_limit: 500,
            keep_trailing_newline: false,
            trim_blocks: false,
            lstrip_blocks: false,
        }
    }

    /// An environment with the default settings.
    pub fn new() -> (env: Self)
        ensures
            env == Self::default_settings(),
    {
        Environment {
            recursion_limit: 500,
            keep_trailing_newline: false,
            trim_blocks: false,
            lstrip_blocks: false,
        }
    }
}

/// The place where an execution context keeps its default environment. It is
/// empty until the environment is first asked for and never changes after.
#[derive(Debug)]
pub struct EnvSlot {
    env: Option<Rc<Environment>>,
}

impl EnvSlot {
    /// The environment that the slot holds, if it was made already.
    pub closed spec fn current(self) -> Option<Environment> {
        match self.env {
            Some(env) => Some(*env),
            None => None,
        }
    }

    /// An empty slot.
    pub fn new() -> (slot: Self)
        ensures
            slot.current() is None,
    {
        EnvSlot { env: None }
    }

    /// Whether the environment was made already.
    pub fn is_initialized(&self) -> (made: bool)
        ensures
            made == self.current() is Some,
    {
        self.env.is_some()
    }

    /// The environment of this slot. The first call makes it with the default
    /// settings; every later call hands out the one that is there and
    /// constructs nothing.
    pub fn get_or_create(&mut self) -> (env: Rc<Environment>)
        ensures
            final(self).current() == Some(*env),
            old(self).current() is Some ==> old(self).current() == Some(*env),
            old(self).current() is None ==> *env == Environment::default_settings(),
    {
        match &self.env {
            Some(env) => env.clone(),
            None => {
                let env = Rc::new(Environment::new());
                self.env = Some(env.clone());
                env
            },
        }
    }
}

} // verus!
