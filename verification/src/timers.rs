use vstd::prelude::*;

verus! {

/// The two independent 8-bit countdown timers. Opcode writes set absolute
/// values; the driver's clock decrements them toward zero at a sub-rate of
/// the instruction clock.
pub struct TimerPair {
    delay: u8,
    sound: u8,
}

impl TimerPair {
    /// The delay timer's current value.
    pub closed spec fn spec_delay(&self) -> u8 {
        self.delay
    }

    /// The sound timer's current value.
    pub closed spec fn spec_sound(&self) -> u8 {
        self.sound
    }

    /// What one clock tick leaves of a timer: one less, stopping at zero.
    pub open spec fn ticked(v: u8) -> u8 {
        if v > 0 {
            (v - 1) as u8
        } else {
            0
        }
    }

    /// Both timers start at zero.
    pub fn new() -> (r: TimerPair)
        ensures
            r.spec_delay() == 0,
            r.spec_sound() == 0,
    {
        TimerPair { delay: 0, sound: 0 }
    }

    pub fn set_delay(&mut self, v: u8)
        ensures
            final(self).spec_delay() == v,
            final(self).spec_sound() == old(self).spec_sound(),
    {
        self.delay = v;
    }

    pub fn get_delay(&self) -> (v: u8)
        ensures
            v == self.spec_delay(),
    {
        self.delay
    }

    pub fn set_sound(&mut self, v: u8)
        ensures
            final(self).spec_sound() == v,
            final(self).spec_delay() == old(self).spec_delay(),
    {
        self.sound = v;
    }

    pub fn get_sound(&self) -> (v: u8)
        ensures
            v == self.spec_sound(),
    {
        self.sound
    }

    /// One decrement of the external clock: each nonzero timer counts down
    /// by one; a timer at zero stays there.
    pub fn tick_clock(&mut self)
        ensures
            final(self).spec_delay() == TimerPair::ticked(old(self).spec_delay()),
            final(self).spec_sound() == TimerPair::ticked(old(self).spec_sound()),
    {
        if self.delay > 0 {
            self.delay = self.delay - 1;
        }
        if self.sound > 0 {
            self.sound = self.sound - 1;
        }
    }
}

} // verus!
