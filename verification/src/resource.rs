use vstd::prelude::*;
use crate::led::LedBank;
use crate::task::TaskTable;

verus! {

/// The shared output bank together with its ceiling: the highest static
/// priority among the tasks that drive it. Code may reach the bank only while
/// it runs at the ceiling or above, so nothing that could interrupt it can
/// reach the bank too, and no lock is needed.
#[derive(Clone, Copy, Debug)]
pub struct ResourceTable {
    leds: LedBank,
    ceiling: u8,
}

impl ResourceTable {
    /// The levels of the lines.
    pub closed spec fn levels(&self) -> Seq<bool> {
        self.leds@
    }

    pub closed spec fn spec_ceiling(&self) -> u8 {
        self.ceiling
    }

    pub open spec fn spec_permits(&self, priority: u8) -> bool {
        priority >= self.spec_ceiling()
    }

    /// Takes ownership of the bank on behalf of the tasks of `table`, all of
    /// which drive it.
    pub fn new(leds: LedBank, table: &TaskTable) -> (resources: ResourceTable)
        ensures
            resources.levels() == leds@,
            resources.spec_ceiling() == table.spec_highest_priority(),
            table.is_highest_priority(resources.spec_ceiling()),
    {
        ResourceTable { leds, ceiling: table.highest_priority() }
    }

    /// The ceiling priority of the bank.
    #[verifier::when_used_as_spec(spec_ceiling)]
    pub fn ceiling(&self) -> (c: u8)
        ensures
            c == self.spec_ceiling(),
    {
        self.ceiling
    }

    /// Whether code running at `priority` may reach the bank.
    #[verifier::when_used_as_spec(spec_permits)]
    pub fn permits(&self, priority: u8) -> (b: bool)
        ensures
            b == self.spec_permits(priority),
    {
        priority >= self.ceiling
    }

    /// Lends the bank to code that runs at `priority`, for as long as the
    /// borrow lasts.
    pub fn claim(&mut self, priority: u8) -> (leds: &mut LedBank)
        requires
            old(self).spec_permits(priority),
        ensures
            leds@ == old(self).levels(),
            final(self).levels() == final(leds)@,
            final(self).spec_ceiling() == old(self).spec_ceiling(),
    {
        &mut self.leds
    }

    /// A copy of the bank as it stands.
    pub fn snapshot(&self) -> (leds: LedBank)
        ensures
            leds@ == self.levels(),
    {
        self.leds
    }
}

} // verus!
