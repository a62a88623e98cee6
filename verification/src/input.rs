use vstd::prelude::*;

verus! {

/// Number of logical keys on the keypad.
pub const NUM_KEYS: usize = 16;

/// Sixteen boolean key states plus the "waiting for a key" condition: while
/// blocked, the engine executes nothing; only an externally delivered
/// key-press event resolves the block, and the resolving key's index is
/// written into the register recorded at block time.
pub struct InputLatch {
    keys: Vec<bool>,
    blocked: Option<u8>,
}

impl InputLatch {
    /// The pressed state of each of the sixteen keys.
    pub closed spec fn spec_keys(&self) -> Seq<bool> {
        self.keys@
    }

    /// The register waiting for a key, if the machine is blocked.
    pub closed spec fn spec_blocked(&self) -> Option<u8> {
        self.blocked
    }

    pub open spec fn wf(&self) -> bool {
        &&& self.spec_keys().len() == NUM_KEYS
        &&& match self.spec_blocked() {
            Some(t) => t < NUM_KEYS,
            None => true,
        }
    }

    /// A fresh latch: nothing pressed, not blocked.
    pub fn new() -> (r: InputLatch)
        ensures
            r.wf(),
            r.spec_blocked() is None,
            forall|k: int| 0 <= k < NUM_KEYS ==> !r.spec_keys()[k],
    {
        let mut keys: Vec<bool> = Vec::new();
        while keys.len() < NUM_KEYS
            invariant
                keys@.len() <= NUM_KEYS,
                forall|k: int| 0 <= k < keys@.len() ==> !keys@[k],
            decreases NUM_KEYS - keys@.len(),
        {
            keys.push(false);
        }
        InputLatch { keys, blocked: None }
    }

    /// Records a key's pressed state, as delivered by the host.
    pub fn set_key(&mut self, index: u8, pressed: bool)
        requires
            old(self).wf(),
            index < NUM_KEYS,
        ensures
            final(self).wf(),
            final(self).spec_keys() == old(self).spec_keys().update(index as int, pressed),
            final(self).spec_blocked() == old(self).spec_blocked(),
    {
        self.keys.set(index as usize, pressed);
    }

    pub fn is_pressed(&self, index: u8) -> (b: bool)
        requires
            self.wf(),
            index < NUM_KEYS,
        ensures
            b == self.spec_keys()[index as int],
    {
        self.keys[index as usize]
    }

    pub fn is_blocked(&self) -> (b: bool)
        ensures
            b == (self.spec_blocked() is Some),
    {
        self.blocked.is_some()
    }

    /// Enters the blocked state, remembering which register the resolving
    /// key's index must go to.
    pub fn block(&mut self, target_register: u8)
        requires
            old(self).wf(),
            target_register < NUM_KEYS,
        ensures
            final(self).wf(),
            final(self).spec_blocked() == Some(target_register),
            final(self).spec_keys() == old(self).spec_keys(),
    {
        self.blocked = Some(target_register);
    }

    /// Resolves a pending block, handing back the recorded target register;
    /// a latch that was not blocked stays as it is and hands back nothing.
    pub fn unblock(&mut self) -> (target: Option<u8>)
        requires
            old(self).wf(),
        ensures
            final(self).wf(),
            target == old(self).spec_blocked(),
            final(self).spec_blocked() is None,
            final(self).spec_keys() == old(self).spec_keys(),
            match target {
                Some(t) => t < NUM_KEYS,
                None => true,
            },
    {
        let t = self.blocked;
        self.blocked = None;
        t
    }
}

} // verus!
