use vstd::prelude::*;

verus! {

/// Number of output lines in the bank.
pub const LINE_COUNT: usize = 8;

/// One output line and the level it is driven to.
#[derive(Clone, Copy, Debug, PartialEq, Eq, Structural)]
pub struct Led {
    pub lit: bool,
}

impl Led {
    /// Drives the line high.
    pub fn on(&mut self)
        ensures
            final(self).lit,
    {
        self.lit = true;
    }

    /// Drives the line low.
    pub fn off(&mut self)
        ensures
            !final(self).lit,
    {
        self.lit = false;
    }

    pub fn is_lit(&self) -> (b: bool)
        ensures
            b == self.lit,
    {
        self.lit
    }
}

/// The bank of output lines, in their fixed order.
#[derive(Clone, Copy, Debug)]
pub struct LedBank {
    pub lines: [Led; LINE_COUNT],
}

impl View for LedBank {
    type V = Seq<bool>;

    open spec fn view(&self) -> Seq<bool> {
        Seq::new(LINE_COUNT as nat, |i: int| self.lines[i].lit)
    }
}

impl LedBank {
    /// The levels of a bank whose lines are all driven to `level`.
    pub open spec fn uniform(level: bool) -> Seq<bool> {
        Seq::new(LINE_COUNT as nat, |i: int| level)
    }

    /// A bank with every line low.
    pub fn new() -> (bank: LedBank)
        ensures
            bank@ == LedBank::uniform(false),
    {
        let bank = LedBank { lines: [Led { lit: false }; LINE_COUNT] };
        assert(bank@ =~= LedBank::uniform(false));
        bank
    }

    /// Whether line `i` is driven high; `None` when there is no such line.
    pub fn is_lit(&self, i: usize) -> (r: Option<bool>)
        ensures
            i < LINE_COUNT ==> r == Some(self@[i as int]),
            i >= LINE_COUNT ==> r is None,
    {
        if i < LINE_COUNT {
            Some(self.lines[i].lit)
        } else {
            None
        }
    }
}

/// Drives one line to `val`.
pub fn set_led(led: &mut Led, val: bool)
    ensures
        final(led).lit == val,
{
    if val {
        led.on();
    } else {
        led.off()
    }
}

/// Drives every line of the bank to `val`.
pub fn set_leds(leds: &mut LedBank, val: bool)
    ensures
        final(leds)@ == LedBank::uniform(val),
{
    for i in 0..LINE_COUNT
        invariant
            forall|k: int| 0 <= k < i ==> leds.lines[k].lit == val,
    {
        set_led(&mut leds.lines[i], val);
    }
    assert(leds@ =~= LedBank::uniform(val));
}

} // verus!
