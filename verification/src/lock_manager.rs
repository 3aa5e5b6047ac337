//! The lock table: which handle holds which lock on which file, and
//! whether a lock that is asked for can be granted beside the others.
//!
//! The table never waits. A request that cannot be granted is answered
//! with `MustWait`, and every release says whether waiters must be woken;
//! waiting and waking are the caller's.

use crate::path_table::PathTable;
use std::collections::HashMap;
use vstd::prelude::*;

verus! {

/// The five lock levels, weakest first.
#[derive(Clone, Copy, Debug, PartialEq, Eq, Structural)]
pub enum LockLevel {
    Unlocked,
    Shared,
    Reserved,
    Pending,
    Exclusive,
}

impl LockLevel {
    /// Position of the level in the order of strength, from 0 to 4.
    pub open spec fn rank(self) -> u8 {
        match self {
            LockLevel::Unlocked => 0,
            LockLevel::Shared => 1,
            LockLevel::Reserved => 2,
            LockLevel::Pending => 3,
            LockLevel::Exclusive => 4,
        }
    }
}

/// Whether a handle may take `requested` while another handle holds `held`.
/// An exclusive lock, asked for or held, tolerates nothing beside it; of
/// reserved and pending locks there is one at a time.
pub open spec fn compatible(requested: LockLevel, held: LockLevel) -> bool {
    &&& requested != LockLevel::Exclusive
    &&& held != LockLevel::Exclusive
    &&& !(requested == LockLevel::Pending && (held == LockLevel::Reserved || held
        == LockLevel::Pending))
    &&& !(requested == LockLevel::Reserved && (held == LockLevel::Reserved || held
        == LockLevel::Pending))
}

/// The locks on one file: the level of each handle that holds one.
pub type Locks = Map<u64, LockLevel>;

/// The whole table: the locks of each file on which any are held.
pub type Table = Map<Seq<char>, Locks>;

/// Whether `requested` can be granted to `handle_id` beside the locks of
/// the other handles. The handle's own lock never stands in its way.
pub open spec fn grantable(locks: Locks, handle_id: u64, requested: LockLevel) -> bool {
    forall|other: u64|
        other != handle_id && locks.dom().contains(other) ==> compatible(
            requested,
            #[trigger] locks[other],
        )
}

/// Whether any two handles hold locks that may stand beside each other.
pub open spec fn consistent(locks: Locks) -> bool {
    forall|a: u64, b: u64|
        a != b && locks.dom().contains(a) && locks.dom().contains(b) ==> compatible(
            #[trigger] locks[a],
            #[trigger] locks[b],
        )
}

/// The locks on `path`: none where the table has no entry for it.
pub open spec fn locks_on(table: Table, path: Seq<char>) -> Locks {
    if table.dom().contains(path) {
        table[path]
    } else {
        Map::empty()
    }
}

/// The level `handle_id` holds: `Unlocked` where it has no entry.
pub open spec fn level_of(locks: Locks, handle_id: u64) -> LockLevel {
    if locks.dom().contains(handle_id) {
        locks[handle_id]
    } else {
        LockLevel::Unlocked
    }
}

/// `locks` with `handle_id` at `level`. A handle at `Unlocked` has no entry.
pub open spec fn with_level(locks: Locks, handle_id: u64, level: LockLevel) -> Locks {
    if level == LockLevel::Unlocked {
        locks.remove(handle_id)
    } else {
        locks.insert(handle_id, level)
    }
}

/// `table` with the locks on `path` set to `locks`. A file on which no
/// lock is held has no entry.
pub open spec fn with_locks(table: Table, path: Seq<char>, locks: Locks) -> Table {
    if locks == Map::<u64, LockLevel>::empty() {
        table.remove(path)
    } else {
        table.insert(path, locks)
    }
}

/// Whether the table is in order: it has no entry without locks, and no
/// handle is entered at `Unlocked`.
pub open spec fn valid_table(table: Table) -> bool {
    forall|path: Seq<char>| #[trigger]
        table.dom().contains(path) ==> valid_locks(table[path]) && table[path] != Map::<
            u64,
            LockLevel,
        >::empty()
}

/// Whether no handle is entered at `Unlocked`.
pub open spec fn valid_locks(locks: Locks) -> bool {
    forall|handle_id: u64| #[trigger]
        locks.dom().contains(handle_id) ==> locks[handle_id] != LockLevel::Unlocked
}

/// Whether `level` is the strongest level held in `locks`: `Unlocked`
/// where none is held.
pub open spec fn is_strongest(locks: Locks, level: LockLevel) -> bool {
    &&& forall|handle_id: u64| #[trigger]
        locks.dom().contains(handle_id) ==> locks[handle_id].rank() <= level.rank()
    &&& level == LockLevel::Unlocked || exists|handle_id: u64| #[trigger]
        locks.dom().contains(handle_id) && locks[handle_id] == level
}

/// The locks on one file, one entry for each handle that holds one.
pub struct HandleLocks {
    entries: HashMap<u64, LockLevel>,
}

impl View for HandleLocks {
    type V = Map<u64, LockLevel>;

    closed spec fn view(&self) -> Map<u64, LockLevel> {
        self.entries@
    }
}

impl HandleLocks {
    /// No locks.
    pub fn new() -> (locks: Self)
        ensures
            locks@ == Map::<u64, LockLevel>::empty(),
    {
        broadcast use vstd::std_specs::hash::group_hash_axioms;

        HandleLocks { entries: HashMap::new() }
    }

    /// Whether no handle holds a lock.
    pub fn is_empty(&self) -> (empty: bool)
        ensures
            empty == (self@ == Map::<u64, LockLevel>::empty()),
    {
        broadcast use vstd::std_specs::hash::group_hash_axioms;

        proof {
            if self.entries@.len() == 0 {
                assert(self.entries@.dom() =~= Set::<u64>::empty());
                assert(self.entries@ =~= Map::<u64, LockLevel>::empty());
            }
        }
        self.entries.len() == 0
    }

    /// Enters `handle_id` at `level`; at `Unlocked` its entry goes.
    pub fn set(&mut self, handle_id: u64, level: LockLevel)
        ensures
            final(self)@ == with_level(old(self)@, handle_id, level),
    {
        broadcast use vstd::std_specs::hash::group_hash_axioms;

        if level == LockLevel::Unlocked {
            let _ = self.entries.remove(&handle_id);
        } else {
            let _ = self.entries.insert(handle_id, level);
        }
    }

    /// Whether `requested` can be granted to `handle_id` beside these
    /// locks: whether it is compatible with the lock of every other handle.
    /// The order in which the locks are gone through does not matter.
    pub fn admits(&self, handle_id: u64, requested: LockLevel) -> (granted: bool)
        ensures
            granted == grantable(self@, handle_id, requested),
    {
        broadcast use vstd::std_specs::hash::group_hash_axioms;

        for entry in entries: self.entries.iter()
            invariant
                forall|j: int|
                    0 <= j < entries.index() && *entries.seq()[j].0 != handle_id ==> compatible(
                        requested,
                        *(#[trigger] entries.seq()[j]).1,
                    ),
        {
            let (other, held) = entry;
            if *other != handle_id && !levels_compatible(requested, *held) {
                proof {
                    assert(self.entries@.contains_key(*other) && self.entries@[*other] == *held);
                }
                return false;
            }
        }
        proof {
            assert forall|other: u64|
                other != handle_id && self@.dom().contains(other) implies compatible(
                requested,
                #[trigger] self@[other],
            ) by {
                assert(self.entries@.contains_key(other));
            }
        }
        true
    }

    /// The strongest level held; `Unlocked` where none is held.
    pub fn strongest(&self) -> (level: LockLevel)
        ensures
            is_strongest(self@, level),
    {
        broadcast use vstd::std_specs::hash::group_hash_axioms;

        let mut best: u8 = 0;
        let ghost mut holder: u64 = 0;
        for entry in entries: self.entries.iter()
            invariant
                best <= 4,
                forall|j: int|
                    0 <= j < entries.index() ==> (*(#[trigger] entries.seq()[j]).1).rank() <= best,
                best == 0 || (self.entries@.contains_key(holder) && self.entries@[holder].rank()
                    == best),
        {
            let (other, held) = entry;
            let rank = LockManager::lock_level_to_u8(*held);
            if rank > best {
                best = rank;
                proof {
                    holder = *other;
                    assert(self.entries@.contains_key(*other) && self.entries@[*other] == *held);
                }
            }
        }
        let level = LockManager::u8_to_lock_level(best);
        proof {
            assert forall|handle_id: u64| #[trigger]
                self@.dom().contains(handle_id) implies self@[handle_id].rank()
                <= level.rank() by {
                assert(self.entries@.contains_key(handle_id));
            }
            if best != 0 {
                assert(self@.dom().contains(holder) && self@[holder] == level);
            }
        }
        level
    }
}

/// Tells whether a handle may take `requested` while another holds `held`.
pub fn levels_compatible(requested: LockLevel, held: LockLevel) -> (ok: bool)
    ensures
        ok == compatible(requested, held),
{
    match (requested, held) {
        (LockLevel::Exclusive, _) => false,
        (_, LockLevel::Exclusive) => false,
        (LockLevel::Pending, LockLevel::Reserved) => false,
        (LockLevel::Pending, LockLevel::Pending) => false,
        (LockLevel::Reserved, LockLevel::Pending) => false,
        (LockLevel::Reserved, LockLevel::Reserved) => false,
        _ => true,
    }
}

/// What became of a request for a lock.
#[derive(Clone, Copy, Debug, PartialEq, Eq, Structural)]
pub enum LockOutcome {
    /// The lock is entered in the table.
    Granted,
    /// Another handle's lock stands in the way. The table is unchanged;
    /// the request is to be made again after the next release on the file.
    MustWait,
}

/// The lock table of all files.
pub struct LockManager {
    files: PathTable<HandleLocks>,
}

impl View for LockManager {
    type V = Table;

    closed spec fn view(&self) -> Table {
        self.files@
    }
}

impl LockManager {
    #[verifier::type_invariant]
    spec fn in_order(&self) -> bool {
        valid_table(self.files@)
    }

    /// The table in which no lock is held.
    pub fn new() -> (manager: Self)
        ensures
            manager@ == Map::<Seq<char>, Locks>::empty(),
    {
        LockManager { files: PathTable::new() }
    }

    /// Asks for `level` on `file_path` for `handle_id`. The lock is granted
    /// if and only if it is compatible with the lock of every other handle
    /// on the file; the handle's own lock never stands in the way. A lock
    /// that is granted is entered, in place of the handle's earlier one;
    /// one that is not leaves the table as it was.
    pub fn lock(&mut self, file_path: &str, handle_id: u64, level: LockLevel) -> (outcome:
        LockOutcome)
        ensures
            valid_table(final(self)@),
            grantable(locks_on(old(self)@, file_path@), handle_id, level) ==> outcome
                == LockOutcome::Granted && final(self)@ == with_locks(
                old(self)@,
                file_path@,
                with_level(locks_on(old(self)@, file_path@), handle_id, level),
            ),
            !grantable(locks_on(old(self)@, file_path@), handle_id, level) ==> outcome
                == LockOutcome::MustWait && final(self)@ == old(self)@,
    {
        proof {
            use_type_invariant(&*self);
        }
        let ghost table = self@;
        let mut files: PathTable<HandleLocks> = PathTable::new();
        core::mem::swap(&mut files, &mut self.files);
        let mut locks = match files.remove(file_path) {
            Some(locks) => locks,
            None => HandleLocks::new(),
        };
        assert(locks@ == locks_on(table, file_path@));
        let granted = Self::is_lock_compatible(level, &locks, handle_id);
        if granted {
            locks.set(handle_id, level);
        }
        let ghost after = locks@;
        if !locks.is_empty() {
            files.insert(file_path, locks);
        }
        proof {
            if granted {
                assert(files@ =~= with_locks(table, file_path@, after));
            } else {
                assert(table.dom().contains(file_path@));
                assert(files@ =~= table);
            }
        }
        self.files = files;
        if granted {
            LockOutcome::Granted
        } else {
            LockOutcome::MustWait
        }
    }

    /// Lowers the lock of `handle_id` on `file_path` to `level`, or drops it
    /// where `level` is `Unlocked`. A file on which no lock is held is left
    /// alone. The result says whether the file had locks, in which case the
    /// handles that wait for it must all be woken.
    pub fn unlock(&mut self, file_path: &str, handle_id: u64, level: LockLevel) -> (wake: bool)
        ensures
            valid_table(final(self)@),
            wake == old(self)@.dom().contains(file_path@),
            wake ==> final(self)@ == with_locks(
                old(self)@,
                file_path@,
                with_level(old(self)@[file_path@], handle_id, level),
            ),
            !wake ==> final(self)@ == old(self)@,
    {
        proof {
            use_type_invariant(&*self);
        }
        let ghost table = self@;
        let mut files: PathTable<HandleLocks> = PathTable::new();
        core::mem::swap(&mut files, &mut self.files);
        let wake = match files.remove(file_path) {
            Some(locks) => {
                let mut locks = locks;
                locks.set(handle_id, level);
                let ghost after = locks@;
                if !locks.is_empty() {
                    files.insert(file_path, locks);
                }
                assert(files@ =~= with_locks(table, file_path@, after));
                true
            },
            None => {
                assert(files@ =~= table);
                false
            },
        };
        self.files = files;
        wake
    }

    /// Drops whatever lock `handle_id` holds on `file_path`, as when the
    /// handle is closed, and with the last lock the file's entry. The
    /// result says whether the file had locks, in which case the handles
    /// that wait for it must all be woken.
    pub fn remove_handle(&mut self, file_path: &str, handle_id: u64) -> (wake: bool)
        ensures
            valid_table(final(self)@),
            wake == old(self)@.dom().contains(file_path@),
            wake ==> final(self)@ == with_locks(
                old(self)@,
                file_path@,
                old(self)@[file_path@].remove(handle_id),
            ),
            !wake ==> final(self)@ == old(self)@,
    {
        self.unlock(file_path, handle_id, LockLevel::Unlocked)
    }

    /// The strongest lock any handle holds on `file_path`; `Unlocked`
    /// where none is held.
    pub fn get_max_lock_level(&self, file_path: &str) -> (level: LockLevel)
        ensures
            is_strongest(locks_on(self@, file_path@), level),
    {
        match self.files.get(file_path) {
            Some(locks) => locks.strongest(),
            None => LockLevel::Unlocked,
        }
    }

    /// The number that stands for a level: its rank.
    pub fn lock_level_to_u8(level: LockLevel) -> (rank: u8)
        ensures
            rank == level.rank(),
    {
        match level {
            LockLevel::Unlocked => 0,
            LockLevel::Shared => 1,
            LockLevel::Reserved => 2,
            LockLevel::Pending => 3,
            LockLevel::Exclusive => 4,
        }
    }

    /// The level a number stands for; a number that is no rank stands for
    /// `Unlocked`.
    pub fn u8_to_lock_level(rank: u8) -> (level: LockLevel)
        ensures
            rank <= 4 ==> level.rank() == rank,
            rank > 4 ==> level == LockLevel::Unlocked,
    {
        match rank {
            0 => LockLevel::Unlocked,
            1 => LockLevel::Shared,
            2 => LockLevel::Reserved,
            3 => LockLevel::Pending,
            4 => LockLevel::Exclusive,
            _ => LockLevel::Unlocked,
        }
    }

    /// Whether `requested` can be granted to `handle_id` beside
    /// `existing_locks`: whether it is compatible with the lock of every
    /// other handle.
    pub fn is_lock_compatible(
        requested: LockLevel,
        existing_locks: &HandleLocks,
        handle_id: u64,
    ) -> (granted: bool)
        ensures
            granted == grantable(existing_locks@, handle_id, requested),
    {
        existing_locks.admits(handle_id, requested)
    }
}

/// Two locks may stand beside each other if and only if neither is
/// exclusive and at most one of them is stronger than shared; which of
/// the two was there first does not matter.
pub proof fn lemma_compatibility_matrix(requested: LockLevel, held: LockLevel)
    ensures
        compatible(requested, held) <==> requested.rank() < 4 && held.rank() < 4 && (
        requested.rank() <= 1 || held.rank() <= 1),
        compatible(requested, held) == compatible(held, requested),
{
}

/// For every pair of levels: after one handle took `first` on a file
/// that had no locks, another handle gets `second` if and only if the two
/// levels are compatible, or the first handle took no lock at all.
pub proof fn lemma_second_lock(first: LockLevel, second: LockLevel, holder: u64, asker: u64)
    requires
        holder != asker,
    ensures
        grantable(Map::<u64, LockLevel>::empty(), holder, first),
        grantable(with_level(Map::<u64, LockLevel>::empty(), holder, first), asker, second) <==> (
        first == LockLevel::Unlocked || compatible(second, first)),
{
    let locks = with_level(Map::<u64, LockLevel>::empty(), holder, first);
    if first != LockLevel::Unlocked {
        assert(locks.dom().contains(holder) && locks[holder] == first);
        if compatible(second, first) {
            assert forall|other: u64|
                other != asker && locks.dom().contains(other) implies compatible(
                second,
                #[trigger] locks[other],
            ) by {
                assert(other == holder);
            }
        }
    }
}

/// A handle's own lock never stands in its way: whether it gets a lock
/// does not depend on the lock it holds.
pub proof fn lemma_own_lock_never_blocks(
    locks: Locks,
    handle_id: u64,
    own: LockLevel,
    requested: LockLevel,
)
    ensures
        grantable(with_level(locks, handle_id, own), handle_id, requested) == grantable(
            locks,
            handle_id,
            requested,
        ),
{
    let changed = with_level(locks, handle_id, own);
    if grantable(locks, handle_id, requested) {
        assert forall|other: u64|
            other != handle_id && changed.dom().contains(other) implies compatible(
            requested,
            #[trigger] changed[other],
        ) by {
            assert(locks.dom().contains(other) && locks[other] == changed[other]);
        }
    }
    if grantable(changed, handle_id, requested) {
        assert forall|other: u64|
            other != handle_id && locks.dom().contains(other) implies compatible(
            requested,
            #[trigger] locks[other],
        ) by {
            assert(changed.dom().contains(other) && locks[other] == changed[other]);
        }
    }
}

/// Granting keeps the peace: where any two locks on a file could stand
/// beside each other, they still can after a lock was granted.
pub proof fn lemma_grant_keeps_consistent(locks: Locks, handle_id: u64, requested: LockLevel)
    requires
        consistent(locks),
        grantable(locks, handle_id, requested),
    ensures
        consistent(with_level(locks, handle_id, requested)),
{
    let after = with_level(locks, handle_id, requested);
    assert forall|a: u64, b: u64|
        a != b && after.dom().contains(a) && after.dom().contains(b) implies compatible(
        #[trigger] after[a],
        #[trigger] after[b],
    ) by {
        if a == handle_id {
            assert(locks.dom().contains(b) && locks[b] == after[b]);
        } else if b == handle_id {
            assert(locks.dom().contains(a) && locks[a] == after[a]);
            lemma_compatibility_matrix(requested, locks[a]);
        } else {
            assert(locks.dom().contains(a) && locks[a] == after[a]);
            assert(locks.dom().contains(b) && locks[b] == after[b]);
        }
    }
}

/// A release lets the waiter in: a handle whose request was refused on
/// account of one holder alone is granted it once that holder has dropped
/// its lock.
pub proof fn lemma_release_unblocks(
    table: Table,
    path: Seq<char>,
    holder: u64,
    waiter: u64,
    requested: LockLevel,
)
    requires
        holder != waiter,
        forall|other: u64|
            other != waiter && other != holder && locks_on(table, path).dom().contains(other)
                ==> compatible(requested, #[trigger] locks_on(table, path)[other]),
    ensures
        grantable(
            locks_on(
                with_locks(
                    table,
                    path,
                    with_level(locks_on(table, path), holder, LockLevel::Unlocked),
                ),
                path,
            ),
            waiter,
            requested,
        ),
{
    let before = locks_on(table, path);
    let left = with_level(before, holder, LockLevel::Unlocked);
    let after = locks_on(with_locks(table, path, left), path);
    assert(after =~= left);
    assert forall|other: u64|
        other != waiter && after.dom().contains(other) implies compatible(
        requested,
        #[trigger] after[other],
    ) by {
        assert(before.dom().contains(other) && before[other] == after[other]);
    }
}

/// Lowering a lock lets the waiter in where the lower level is compatible
/// with what the waiter asks for and no other holder stands in the way.
pub proof fn lemma_downgrade_unblocks(
    table: Table,
    path: Seq<char>,
    holder: u64,
    level: LockLevel,
    waiter: u64,
    requested: LockLevel,
)
    requires
        holder != waiter,
        level != LockLevel::Unlocked,
        compatible(requested, level),
        forall|other: u64|
            other != waiter && other != holder && locks_on(table, path).dom().contains(other)
                ==> compatible(requested, #[trigger] locks_on(table, path)[other]),
    ensures
        grantable(
            locks_on(with_locks(table, path, with_level(locks_on(table, path), holder, level)), path),
            waiter,
            requested,
        ),
{
    let before = locks_on(table, path);
    let lowered = with_level(before, holder, level);
    assert(lowered.dom().contains(holder));
    assert(lowered != Map::<u64, LockLevel>::empty());
    let after = locks_on(with_locks(table, path, lowered), path);
    assert(after =~= lowered);
    assert forall|other: u64|
        other != waiter && after.dom().contains(other) implies compatible(
        requested,
        #[trigger] after[other],
    ) by {
        if other != holder {
            assert(before.dom().contains(other) && before[other] == after[other]);
        }
    }
}

/// A lock that was granted is the lock the handle holds, and the locks of
/// the other handles are what they were.
pub proof fn lemma_lock_is_recorded(locks: Locks, handle_id: u64, level: LockLevel, other: u64)
    requires
        valid_locks(locks),
        other != handle_id,
    ensures
        valid_locks(with_level(locks, handle_id, level)),
        level_of(with_level(locks, handle_id, level), handle_id) == level,
        level_of(with_level(locks, handle_id, level), other) == level_of(locks, other),
{
}

/// A handle that must wait waits for somebody: another handle holds a
/// lock on the file that stands in its way, so the file has locks and its
/// next release wakes the waiter.
pub proof fn lemma_wait_has_a_cause(locks: Locks, handle_id: u64, requested: LockLevel)
    requires
        !grantable(locks, handle_id, requested),
    ensures
        locks != Map::<u64, LockLevel>::empty(),
        exists|holder: u64|
            holder != handle_id && locks.dom().contains(holder) && !compatible(
                requested,
                #[trigger] locks[holder],
            ),
{
    let holder = choose|other: u64|
        other != handle_id && locks.dom().contains(other) && !compatible(
            requested,
            #[trigger] locks[other],
        );
    assert(locks.dom().contains(holder));
}

/// A stronger lock is in the way of at least as much: what may stand
/// beside a lock may stand beside every weaker one.
pub proof fn lemma_weaker_is_kinder(requested: LockLevel, held: LockLevel, weaker: LockLevel)
    requires
        weaker.rank() <= held.rank(),
        compatible(requested, held),
    ensures
        compatible(requested, weaker),
{
}

/// Only a release lets a waiter in: while a handle takes a lock that is
/// no weaker than the one it held, no other handle's refused request
/// becomes one that can be granted. So a waiter misses nothing by sleeping
/// until the next release.
pub proof fn lemma_upgrade_unblocks_nobody(
    locks: Locks,
    handle_id: u64,
    level: LockLevel,
    waiter: u64,
    requested: LockLevel,
)
    requires
        valid_locks(locks),
        waiter != handle_id,
        level_of(locks, handle_id).rank() <= level.rank(),
        !grantable(locks, waiter, requested),
    ensures
        !grantable(with_level(locks, handle_id, level), waiter, requested),
{
    let after = with_level(locks, handle_id, level);
    let holder = choose|other: u64|
        other != waiter && locks.dom().contains(other) && !compatible(
            requested,
            #[trigger] locks[other],
        );
    if holder == handle_id {
        assert(level != LockLevel::Unlocked);
        assert(after.dom().contains(handle_id) && after[handle_id] == level);
        if compatible(requested, after[handle_id]) {
            lemma_weaker_is_kinder(requested, level, locks[handle_id]);
        }
    } else {
        assert(after.dom().contains(holder) && after[holder] == locks[holder]);
    }
}

} // verus!
