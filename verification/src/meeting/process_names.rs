//! Names of the programs that own windows, kept as long as the process lives.

use std::collections::HashMap;

use vstd::prelude::*;
use vstd::std_specs::hash::group_hash_axioms;

verus! {

broadcast use group_hash_axioms;

/// Program names by process, each with the time at which the process was created.
pub struct ProcessNameCache {
    pub entries: HashMap<u32, (u64, String)>,
}

/// The name that is kept for a process created at `creation_time`.
pub open spec fn kept_name(
    entries: Map<u32, (u64, String)>,
    pid: u32,
    creation_time: u64,
) -> Option<String> {
    if entries.contains_key(pid) && entries[pid].0 == creation_time {
        Some(entries[pid].1)
    } else {
        None
    }
}

/// The entries after `name` was looked up for a process. An empty name is not kept.
pub open spec fn with_name(
    entries: Map<u32, (u64, String)>,
    pid: u32,
    creation_time: u64,
    name: String,
) -> Map<u32, (u64, String)> {
    if name@.len() == 0 {
        entries.remove(pid)
    } else {
        entries.insert(pid, (creation_time, name))
    }
}

/// The name of a process: the kept one, or what `loader` gives. Another creation time
/// means another process under the same number, whose name is not kept. The loader has to be
/// callable only where no name is kept, so a kept name is not loaded again.
pub fn lookup_cached_name<F: FnOnce() -> String>(
    entries: &mut HashMap<u32, (u64, String)>,
    pid: u32,
    creation_time: u64,
    loader: F,
) -> (result: String)
    requires
        kept_name(old(entries)@, pid, creation_time) is None ==> loader.requires(()),
    ensures
        match kept_name(old(entries)@, pid, creation_time) {
            Some(name) => result == name && final(entries)@ == old(entries)@,
            None => loader.ensures((), result) && final(entries)@ == with_name(
                old(entries)@,
                pid,
                creation_time,
                result,
            ),
        },
{
    if let Some(entry) = entries.get(&pid) {
        if entry.0 == creation_time {
            return entry.1.clone();
        }
    }
    let name = loader();
    entries.remove(&pid);
    if !name.as_str().is_empty() {
        entries.insert(pid, (creation_time, name.clone()));
        assert(entries@ =~= with_name(old(entries)@, pid, creation_time, name));
    } else {
        assert(entries@ =~= with_name(old(entries)@, pid, creation_time, name));
    }
    name
}

impl ProcessNameCache {
    pub fn new() -> (result: Self)
        ensures
            result.entries@ == Map::<u32, (u64, String)>::empty(),
    {
        ProcessNameCache { entries: HashMap::new() }
    }

    /// The program name of a window. Without a process number or a creation time it is
    /// what `loader` gives, and nothing is kept. A kept name is not loaded again.
    pub fn app_name<F: FnOnce() -> String>(
        &mut self,
        process: Option<(u32, u64)>,
        loader: F,
    ) -> (result: String)
        requires
            match process {
                None => true,
                Some((pid, creation_time)) => kept_name(
                    old(self).entries@,
                    pid,
                    creation_time,
                ) is None,
            } ==> loader.requires(()),
        ensures
            match process {
                None => loader.ensures((), result) && final(self).entries@ == old(self).entries@,
                Some((pid, creation_time)) => match kept_name(
                    old(self).entries@,
                    pid,
                    creation_time,
                ) {
                    Some(name) => result == name && final(self).entries@ == old(self).entries@,
                    None => loader.ensures((), result) && final(self).entries@ == with_name(
                        old(self).entries@,
                        pid,
                        creation_time,
                        result,
                    ),
                },
            },
    {
        match process {
            None => loader(),
            Some((pid, creation_time)) => lookup_cached_name(
                &mut self.entries,
                pid,
                creation_time,
                loader,
            ),
        }
    }

    /// Forgets every process that owns no window any more.
    pub fn retain_processes(&mut self, pids: &Vec<u32>)
        ensures
            final(self).entries@ == old(self).entries@.restrict(pids@.to_set()),
    {
        let mut kept: HashMap<u32, (u64, String)> = HashMap::new();
        let ghost before = self.entries@;
        let mut i: usize = 0;
        assert(kept@ =~= before.restrict(pids@.take(0).to_set()));
        assert(self.entries@ =~= before.remove_keys(pids@.take(0).to_set()));
        while i < pids.len()
            invariant
                i <= pids.len(),
                kept@ == before.restrict(pids@.take(i as int).to_set()),
                self.entries@ == before.remove_keys(pids@.take(i as int).to_set()),
            decreases pids.len() - i,
        {
            let pid: u32 = pids[i];
            let ghost seen = pids@.take(i as int).to_set();
            let ghost now = pids@.take(i + 1).to_set();
            proof {
                assert forall|key: u32| now.contains(key) == (seen.contains(key) || key == pid) by {
                    lemma_take_one_more(pids@, i as int, key);
                }
            }
            if let Some(entry) = self.entries.remove(&pid) {
                kept.insert(pid, entry);
            }
            assert(kept@ =~= before.restrict(now));
            assert(self.entries@ =~= before.remove_keys(now));
            i += 1;
        }
        assert(pids@.take(i as int) =~= pids@);
        self.entries = kept;
    }
}

proof fn lemma_take_one_more(pids: Seq<u32>, i: int, key: u32)
    requires
        0 <= i < pids.len(),
    ensures
        pids.take(i + 1).to_set().contains(key) == (pids.take(i).to_set().contains(key) || key
            == pids[i]),
{
    let shorter = pids.take(i);
    let longer = pids.take(i + 1);
    assert(longer =~= shorter.push(pids[i]));
    if longer.contains(key) {
        let k = choose|k: int| 0 <= k < longer.len() && longer[k] == key;
        if k < i {
            assert(shorter[k] == key);
        }
    }
    if shorter.contains(key) {
        let k = choose|k: int| 0 <= k < shorter.len() && shorter[k] == key;
        assert(longer[k] == key);
    }
    assert(longer[i] == pids[i]);
}

/// A process that lives on is asked for its name once: the second lookup gives the first
/// name, whatever its own loader would give.
pub proof fn law_kept_name_is_stable(
    entries: Map<u32, (u64, String)>,
    pid: u32,
    creation_time: u64,
    name: String,
)
    requires
        name@.len() > 0,
    ensures
        kept_name(with_name(entries, pid, creation_time, name), pid, creation_time) == Some(name),
{
}

/// Another process under the same number never gets the kept name, and an empty name is
/// asked for again.
pub proof fn law_other_processes_are_asked_again(
    entries: Map<u32, (u64, String)>,
    pid: u32,
    creation_time: u64,
    name: String,
    other: u64,
)
    requires
        other != creation_time || name@.len() == 0,
    ensures
        kept_name(with_name(entries, pid, creation_time, name), pid, other) is None,
{
}

/// A name that was looked up is found again for the same process and no other: not for one
/// that was created at another time under the same number. An empty name is forgotten, and
/// the names of other processes stay.
pub proof fn law_names_are_kept_for_their_process(
    entries: Map<u32, (u64, String)>,
    pid: u32,
    creation_time: u64,
    name: String,
    other: u32,
    other_time: u64,
)
    ensures
        ({
            let after = with_name(entries, pid, creation_time, name);
            &&& name@.len() > 0 ==> kept_name(after, pid, creation_time) == Some(name)
            &&& name@.len() == 0 ==> kept_name(after, pid, creation_time) is None
            &&& other_time != creation_time ==> kept_name(after, pid, other_time) is None
            &&& other != pid ==> kept_name(after, other, other_time) == kept_name(
                entries,
                other,
                other_time,
            )
        }),
{
}

} // verus!
