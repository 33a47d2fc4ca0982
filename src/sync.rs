use vstd::prelude::*;

verus! {

/// Errors of the channel and mutex registries.
#[derive(Debug, Clone, Copy, PartialEq, Eq, Structural)]
pub enum SyncError {
    InvalidHandle,
    LockedByAnother,
}

/// One open channel handle: its key and the ids of the messages waiting
/// for it, oldest first.
#[derive(Debug)]
pub struct Channel {
    pub handle: i32,
    pub key: crate::hash::Hash,
    pub queue: Vec<usize>,
}

/// Multi-producer multi-consumer channels by key. A message sent by a
/// handle goes to every other handle open on the same key.
#[derive(Debug)]
pub struct ChannelHub<M> {
    pub channels: Vec<Channel>,
    /// Every message sent, by id.
    pub messages: Vec<M>,
}

/// Whether position `i` holds handle `h`.
pub open spec fn holds(chs: Seq<Channel>, i: int, h: i32) -> bool {
    0 <= i < chs.len() && chs[i].handle == h
}

/// The queue a send leaves for channel `c`, given the sender's position
/// `s` and key, and the message id.
pub open spec fn after_send(c: Channel, j: int, s: int, key: crate::hash::Hash, id: usize) -> Seq<usize> {
    if j != s && c.key == key {
        c.queue@.push(id)
    } else {
        c.queue@
    }
}

impl<M> ChannelHub<M> {
    /// Handles are unique, and every queued id names a sent message.
    pub open spec fn wf(&self) -> bool {
        &&& forall|a: int, b: int| 0 <= a < b < self.channels@.len() ==> self.channels@[a].handle != self.channels@[b].handle
        &&& forall|i: int, k: int| 0 <= i < self.channels@.len() && 0 <= k < self.channels@[i].queue@.len() ==> self.channels@[i].queue@[k] < self.messages@.len()
    }

    /// An empty registry.
    pub fn new() -> (r: ChannelHub<M>)
        ensures
            r.wf(),
            r.channels@.len() == 0,
            r.messages@.len() == 0,
    {
        ChannelHub { channels: Vec::new(), messages: Vec::new() }
    }

    fn position(&self, handle: i32) -> (r: Option<usize>)
        requires
            self.wf(),
        ensures
            match r {
                Some(i) => holds(self.channels@, i as int, handle),
                None => forall|i: int| 0 <= i < self.channels@.len() ==> self.channels@[i].handle != handle,
            },
    {
        let mut i: usize = 0;
        while i < self.channels.len()
            invariant
                i <= self.channels@.len(),
                forall|j: int| 0 <= j < i ==> self.channels@[j].handle != handle,
            decreases self.channels.len() - i,
        {
            if self.channels[i].handle == handle {
                return Some(i);
            }
            i += 1;
        }
        None
    }

    /// Open `handle` on `key`; refused (`false`) when the handle is taken.
    pub fn open(&mut self, key: crate::hash::Hash, handle: i32) -> (r: bool)
        requires
            old(self).wf(),
        ensures
            final(self).wf(),
            final(self).messages@ == old(self).messages@,
            r == forall|i: int| 0 <= i < old(self).channels@.len() ==> old(self).channels@[i].handle != handle,
            r ==> final(self).channels@.len() == old(self).channels@.len() + 1
                && final(self).channels@.last().handle == handle
                && final(self).channels@.last().key == key
                && final(self).channels@.last().queue@.len() == 0
                && forall|i: int| 0 <= i < old(self).channels@.len() ==> final(self).channels@[i] == old(self).channels@[i],
            !r ==> final(self).channels@ == old(self).channels@,
    {
        match self.position(handle) {
            Some(_) => false,
            None => {
                self.channels.push(Channel { handle, key, queue: Vec::new() });
                true
            },
        }
    }

    /// Send a message from `handle`: it is stored once, and its id is
    /// appended to the queue of every other handle open on the same key.
    /// Handles on other keys, and the sender, are left alone.
    pub fn send(&mut self, handle: i32, msg: M) -> (r: Result<usize, SyncError>)
        requires
            old(self).wf(),
        ensures
            final(self).wf(),
            match r {
                Ok(id) => {
                    &&& id == old(self).messages@.len()
                    &&& final(self).messages@ == old(self).messages@.push(msg)
                    &&& final(self).channels@.len() == old(self).channels@.len()
                    &&& exists|s: int| #[trigger] holds(old(self).channels@, s, handle) && forall|j: int| 0 <= j < old(self).channels@.len() ==> {
                        &&& final(self).channels@[j].handle == old(self).channels@[j].handle
                        &&& final(self).channels@[j].key == old(self).channels@[j].key
                        &&& final(self).channels@[j].queue@ == after_send(old(self).channels@[j], j, s, old(self).channels@[s].key, id)
                    }
                },
                Err(e) => e == SyncError::InvalidHandle && final(self).channels@ == old(self).channels@
                    && final(self).messages@ == old(self).messages@
                    && forall|i: int| 0 <= i < old(self).channels@.len() ==> old(self).channels@[i].handle != handle,
            },
    {
        let s = match self.position(handle) {
            Some(s) => s,
            None => {
                return Err(SyncError::InvalidHandle);
            },
        };
        let key = self.channels[s].key;
        let id = self.messages.len();
        self.messages.push(msg);
        let ghost before = self.channels@;
        let mut j: usize = 0;
        while j < self.channels.len()
            invariant
                before == old(self).channels@,
                self.messages@ == old(self).messages@.push(msg),
                id == old(self).messages@.len(),
                self.channels@.len() == before.len(),
                holds(before, s as int, handle),
                key == before[s as int].key,
                id + 1 == self.messages@.len(),
                j <= before.len(),
                forall|a: int, b: int| 0 <= a < b < self.channels@.len() ==> self.channels@[a].handle != self.channels@[b].handle,
                forall|i: int, k: int| 0 <= i < self.channels@.len() && 0 <= k < self.channels@[i].queue@.len() ==> self.channels@[i].queue@[k] < self.messages@.len(),
                forall|i: int| 0 <= i < before.len() ==> self.channels@[i].handle == before[i].handle && self.channels@[i].key == before[i].key,
                forall|i: int| 0 <= i < j ==> self.channels@[i].queue@ == after_send(before[i], i, s as int, key, id),
                forall|i: int| j <= i < before.len() ==> self.channels@[i].queue@ == before[i].queue@,
            decreases before.len() - j,
        {
            if j != s && self.channels[j].key == key {
                let ghost prev = self.channels@;
                let mut c = self.channels.remove(j);
                c.queue.push(id);
                self.channels.insert(j, c);
                proof {
                    assert(self.channels@ =~= prev.update(j as int, c));
                }
            }
            j += 1;
        }
        proof {
            assert(holds(old(self).channels@, s as int, handle));
            assert forall|j: int| 0 <= j < old(self).channels@.len() implies {
                &&& self.channels@[j].handle == old(self).channels@[j].handle
                &&& self.channels@[j].key == old(self).channels@[j].key
                &&& self.channels@[j].queue@ == after_send(old(self).channels@[j], j, s as int, old(self).channels@[s as int].key, id)
            } by {}
        }
        Ok(id)
    }

    /// Take the oldest message waiting for `handle`.
    pub fn recv(&mut self, handle: i32) -> (r: Result<Option<usize>, SyncError>)
        requires
            old(self).wf(),
        ensures
            final(self).wf(),
            final(self).messages@ == old(self).messages@,
            final(self).channels@.len() == old(self).channels@.len(),
            match r {
                Ok(o) => exists|s: int| #[trigger] holds(old(self).channels@, s, handle) && {
                    let q = old(self).channels@[s].queue@;
                    &&& o == (if q.len() > 0 { Some(q[0]) } else { None::<usize> })
                    &&& final(self).channels@[s].queue@ == (if q.len() > 0 { q.drop_first() } else { q })
                    &&& final(self).channels@[s].handle == handle
                    &&& final(self).channels@[s].key == old(self).channels@[s].key
                    &&& forall|j: int| 0 <= j < old(self).channels@.len() && j != s ==> final(self).channels@[j] == old(self).channels@[j]
                },
                Err(e) => e == SyncError::InvalidHandle && final(self).channels@ == old(self).channels@,
            },
    {
        let s = match self.position(handle) {
            Some(s) => s,
            None => {
                return Err(SyncError::InvalidHandle);
            },
        };
        let ghost before = self.channels@;
        if self.channels[s].queue.len() == 0 {
            return Ok(None);
        }
        let mut c = self.channels.remove(s);
        let id = c.queue.remove(0);
        self.channels.insert(s, c);
        proof {
            assert(self.channels@ =~= before.update(s as int, c));
            assert(c.queue@ =~= before[s as int].queue@.drop_first());
        }
        Ok(Some(id))
    }

    /// The message with a given id.
    pub fn message(&self, id: usize) -> (r: &M)
        requires
            id < self.messages@.len(),
        ensures
            *r == self.messages@[id as int],
    {
        &self.messages[id]
    }

    /// Close a handle; closing an unknown handle does nothing.
    pub fn close(&mut self, handle: i32)
        requires
            old(self).wf(),
        ensures
            final(self).wf(),
            final(self).messages@ == old(self).messages@,
            forall|i: int| 0 <= i < final(self).channels@.len() ==> final(self).channels@[i].handle != handle,
    {
        match self.position(handle) {
            Some(s) => {
                let ghost before = self.channels@;
                self.channels.remove(s);
                proof {
                    assert forall|i: int| 0 <= i < self.channels@.len() implies self.channels@[i].handle != handle by {
                        if i < s {
                            assert(self.channels@[i] == before[i]);
                        } else {
                            assert(self.channels@[i] == before[i + 1]);
                        }
                    }
                }
            },
            None => {},
        }
    }
}

/// Keyed mutexes: one holder per key at a time; a holder may lock again.
#[derive(Debug)]
pub struct MutexHub {
    /// Open handles and their keys.
    pub handles: Vec<(i32, crate::hash::Hash)>,
    /// Held keys and their holders.
    pub locks: Vec<(crate::hash::Hash, i32)>,
}

/// The holder of a key, if it is held.
pub open spec fn holder(locks: Seq<(crate::hash::Hash, i32)>, key: crate::hash::Hash) -> Option<i32> {
    if exists|i: int| 0 <= i < locks.len() && (#[trigger] locks[i]).0 == key {
        Some(locks[choose|i: int| 0 <= i < locks.len() && (#[trigger] locks[i]).0 == key].1)
    } else {
        None
    }
}

/// The key a handle was opened on, if it is open.
pub open spec fn key_of(handles: Seq<(i32, crate::hash::Hash)>, h: i32) -> Option<crate::hash::Hash> {
    if exists|i: int| 0 <= i < handles.len() && (#[trigger] handles[i]).0 == h {
        Some(handles[choose|i: int| 0 <= i < handles.len() && (#[trigger] handles[i]).0 == h].1)
    } else {
        None
    }
}

impl MutexHub {
    /// Handles are unique, and so are held keys.
    pub open spec fn wf(&self) -> bool {
        &&& forall|a: int, b: int| 0 <= a < b < self.handles@.len() ==> self.handles@[a].0 != self.handles@[b].0
        &&& forall|a: int, b: int| 0 <= a < b < self.locks@.len() ==> self.locks@[a].0 != self.locks@[b].0
    }

    /// An empty registry.
    pub fn new() -> (r: MutexHub)
        ensures
            r.wf(),
    {
        MutexHub { handles: Vec::new(), locks: Vec::new() }
    }

    fn key_position(&self, handle: i32) -> (r: Option<usize>)
        requires
            self.wf(),
        ensures
            match r {
                Some(i) => i < self.handles@.len() && self.handles@[i as int].0 == handle && key_of(self.handles@, handle) == Some(self.handles@[i as int].1),
                None => key_of(self.handles@, handle).is_none(),
            },
    {
        let mut i: usize = 0;
        while i < self.handles.len()
            invariant
                self.wf(),
                i <= self.handles@.len(),
                forall|j: int| 0 <= j < i ==> self.handles@[j].0 != handle,
            decreases self.handles.len() - i,
        {
            if self.handles[i].0 == handle {
                proof {
                    let k = choose|k: int| 0 <= k < self.handles@.len() && (#[trigger] self.handles@[k]).0 == handle;
                    if k < i {
                        assert(self.handles@[k].0 != self.handles@[i as int].0);
                    } else if k > i {
                        assert(self.handles@[i as int].0 != self.handles@[k].0);
                    }
                }
                return Some(i);
            }
            i += 1;
        }
        None
    }

    fn lock_position(&self, key: crate::hash::Hash) -> (r: Option<usize>)
        requires
            self.wf(),
        ensures
            match r {
                Some(i) => i < self.locks@.len() && self.locks@[i as int].0 == key && holder(self.locks@, key) == Some(self.locks@[i as int].1),
                None => holder(self.locks@, key).is_none(),
            },
    {
        let mut i: usize = 0;
        while i < self.locks.len()
            invariant
                self.wf(),
                i <= self.locks@.len(),
                forall|j: int| 0 <= j < i ==> self.locks@[j].0 != key,
            decreases self.locks.len() - i,
        {
            if self.locks[i].0 == key {
                proof {
                    let k = choose|k: int| 0 <= k < self.locks@.len() && (#[trigger] self.locks@[k]).0 == key;
                    if k < i {
                        assert(self.locks@[k].0 != self.locks@[i as int].0);
                    } else if k > i {
                        assert(self.locks@[i as int].0 != self.locks@[k].0);
                    }
                }
                return Some(i);
            }
            i += 1;
        }
        None
    }

    /// Open `handle` on `key`; refused (`false`) when the handle is taken.
    pub fn open(&mut self, key: crate::hash::Hash, handle: i32) -> (r: bool)
        requires
            old(self).wf(),
        ensures
            final(self).wf(),
            final(self).locks@ == old(self).locks@,
            r == key_of(old(self).handles@, handle).is_none(),
            r ==> key_of(final(self).handles@, handle) == Some(key),
    {
        match self.key_position(handle) {
            Some(_) => false,
            None => {
                let ghost before = self.handles@;
                self.handles.push((handle, key));
                proof {
                    let k = choose|k: int| 0 <= k < self.handles@.len() && (#[trigger] self.handles@[k]).0 == handle;
                    assert(self.handles@[self.handles@.len() - 1].0 == handle);
                    if k != self.handles@.len() - 1 {
                        assert(before[k].0 == handle);
                    }
                }
                true
            },
        }
    }

    /// Try to take the lock of the handle's key: taken when the key is free
    /// or already held by this handle.
    pub fn try_lock(&mut self, handle: i32) -> (r: Result<bool, SyncError>)
        requires
            old(self).wf(),
        ensures
            final(self).wf(),
            final(self).handles@ == old(self).handles@,
            match r {
                Ok(taken) => key_of(old(self).handles@, handle) matches Some(key) && taken == (
                    holder(old(self).locks@, key) is None || holder(old(self).locks@, key) == Some(handle))
                    && (taken ==> holder(final(self).locks@, key) == Some(handle))
                    && (!taken ==> final(self).locks@ == old(self).locks@),
                Err(e) => e == SyncError::InvalidHandle && key_of(old(self).handles@, handle).is_none(),
            },
    {
        let k = match self.key_position(handle) {
            Some(k) => k,
            None => {
                return Err(SyncError::InvalidHandle);
            },
        };
        let key = self.handles[k].1;
        match self.lock_position(key) {
            Some(i) => Ok(self.locks[i].1 == handle),
            None => {
                let ghost before = self.locks@;
                self.locks.push((key, handle));
                proof {
                    let j = choose|j: int| 0 <= j < self.locks@.len() && (#[trigger] self.locks@[j]).0 == key;
                    assert(self.locks@[self.locks@.len() - 1].0 == key);
                    if j != self.locks@.len() - 1 {
                        assert(before[j].0 == key);
                    }
                }
                Ok(true)
            },
        }
    }

    /// Release the handle's lock; releasing a free key does nothing, and a
    /// key held by another handle is refused.
    pub fn unlock(&mut self, handle: i32) -> (r: Result<(), SyncError>)
        requires
            old(self).wf(),
        ensures
            final(self).wf(),
            final(self).handles@ == old(self).handles@,
            match r {
                Ok(()) => key_of(old(self).handles@, handle) matches Some(key) && holder(final(self).locks@, key).is_none()
                    && (holder(old(self).locks@, key) is None || holder(old(self).locks@, key) == Some(handle)),
                Err(SyncError::InvalidHandle) => key_of(old(self).handles@, handle).is_none(),
                Err(SyncError::LockedByAnother) => key_of(old(self).handles@, handle) matches Some(key)
                    && holder(old(self).locks@, key) matches Some(h) && h != handle
                    && final(self).locks@ == old(self).locks@,
            },
    {
        let k = match self.key_position(handle) {
            Some(k) => k,
            None => {
                return Err(SyncError::InvalidHandle);
            },
        };
        let key = self.handles[k].1;
        match self.lock_position(key) {
            Some(i) => {
                if self.locks[i].1 != handle {
                    return Err(SyncError::LockedByAnother);
                }
                let ghost before = self.locks@;
                self.locks.remove(i);
                proof {
                    assert forall|j: int| 0 <= j < self.locks@.len() implies (#[trigger] self.locks@[j]).0 != key by {
                        if j < i {
                            assert(self.locks@[j] == before[j]);
                        } else {
                            assert(self.locks@[j] == before[j + 1]);
                        }
                    }
                    assert forall|a: int, b: int| 0 <= a < b < self.locks@.len() implies self.locks@[a].0 != self.locks@[b].0 by {
                        let a2 = if a < i { a } else { a + 1 };
                        let b2 = if b < i { b } else { b + 1 };
                        assert(self.locks@[a] == before[a2]);
                        assert(self.locks@[b] == before[b2]);
                    }
                }
                Ok(())
            },
            None => Ok(()),
        }
    }

    /// Close a handle, releasing the key it holds; closing an unknown
    /// handle does nothing.
    pub fn close(&mut self, handle: i32)
        requires
            old(self).wf(),
        ensures
            final(self).wf(),
            key_of(final(self).handles@, handle).is_none(),
            forall|key: crate::hash::Hash| key_of(old(self).handles@, handle) == Some(key) && holder(old(self).locks@, key) == Some(handle)
                ==> #[trigger] holder(final(self).locks@, key).is_none(),
    {
        match self.key_position(handle) {
            Some(k) => {
                let key = self.handles[k].1;
                match self.lock_position(key) {
                    Some(i) => {
                        if self.locks[i].1 == handle {
                            let ghost before = self.locks@;
                            self.locks.remove(i);
                            proof {
                                assert forall|j: int| 0 <= j < self.locks@.len() implies (#[trigger] self.locks@[j]).0 != key by {
                                    if j < i {
                                        assert(self.locks@[j] == before[j]);
                                    } else {
                                        assert(self.locks@[j] == before[j + 1]);
                                    }
                                }
                                assert forall|a: int, b: int| 0 <= a < b < self.locks@.len() implies self.locks@[a].0 != self.locks@[b].0 by {
                                    let a2 = if a < i { a } else { a + 1 };
                                    let b2 = if b < i { b } else { b + 1 };
                                    assert(self.locks@[a] == before[a2]);
                                    assert(self.locks@[b] == before[b2]);
                                }
                            }
                        }
                    },
                    None => {},
                }
                let ghost hb = self.handles@;
                self.handles.remove(k);
                proof {
                    assert forall|j: int| 0 <= j < self.handles@.len() implies (#[trigger] self.handles@[j]).0 != handle by {
                        if j < k {
                            assert(self.handles@[j] == hb[j]);
                            assert(hb[j].0 != hb[k as int].0);
                        } else {
                            assert(self.handles@[j] == hb[j + 1]);
                            assert(hb[k as int].0 != hb[j + 1].0);
                        }
                    }
                    assert forall|a: int, b: int| 0 <= a < b < self.handles@.len() implies self.handles@[a].0 != self.handles@[b].0 by {
                        let a2 = if a < k { a } else { a + 1 };
                        let b2 = if b < k { b } else { b + 1 };
                        assert(self.handles@[a] == hb[a2]);
                        assert(self.handles@[b] == hb[b2]);
                    }
                }
            },
            None => {},
        }
    }
}

} // verus!
