use vstd::prelude::*;
use crate::memory::paging::PageEntry;

verus! {

/// Protection of a memory area: who may reach it and how.
#[derive(Clone, Copy, Debug, PartialEq, Eq, Structural)]
pub struct MemoryAttr {
    pub user: bool,
    pub readonly: bool,
    pub execute: bool,
}

impl MemoryAttr {
    /// User mode may reach the area.
    pub open spec fn is_user(&self) -> bool {
        self.user
    }

    /// The area cannot be written.
    pub open spec fn is_readonly(&self) -> bool {
        self.readonly
    }

    /// Instructions may be fetched from the area.
    pub open spec fn is_execute(&self) -> bool {
        self.execute
    }

    /// The entry that `apply` makes of `e`: valid, with the user, write and
    /// execute flags that the attribute asks for, everything else as in `e`.
    pub open spec fn applied(&self, e: PageEntry) -> PageEntry {
        PageEntry {
            valid: true,
            user: self.is_user(),
            writable: !self.is_readonly(),
            executable: self.is_execute(),
            ..e
        }
    }

    /// The default protection: kernel only, writable, not executable.
    pub fn new() -> (a: Self)
        ensures
            a == (MemoryAttr { user: false, readonly: false, execute: false }),
    {
        MemoryAttr { user: false, readonly: false, execute: false }
    }

    /// The same protection, with user mode let in.
    pub fn set_user(self) -> (a: Self)
        ensures
            a == (MemoryAttr { user: true, ..self }),
    {
        MemoryAttr { user: true, readonly: self.readonly, execute: self.execute }
    }

    /// The same protection, with writing taken away.
    pub fn set_readonly(self) -> (a: Self)
        ensures
            a == (MemoryAttr { readonly: true, ..self }),
    {
        MemoryAttr { user: self.user, readonly: true, execute: self.execute }
    }

    /// The same protection, with execution let in.
    pub fn set_execute(self) -> (a: Self)
        ensures
            a == (MemoryAttr { execute: true, ..self }),
    {
        MemoryAttr { user: self.user, readonly: self.readonly, execute: true }
    }

    /// Writes the protection into the entry `entry`.
    pub fn apply(&self, entry: &mut PageEntry)
        ensures
            *final(entry) == self.applied(*old(entry)),
    {
        entry.set_present(true);
        entry.set_user(self.user);
        entry.set_writable(!self.readonly);
        entry.set_execute(self.execute);
    }
}

} // verus!
