//! The cancellation registry: a process-wide map from a conversation key
//! (chat id, message id) to an abort flag. At most one live entry per key;
//! registering an occupied key fails, cancelling an absent key reports
//! "not found", and removal is idempotent.

use vstd::prelude::*;

verus! {

/// Why a registration is refused.
#[derive(Clone, Copy, Debug, PartialEq, Eq, Structural)]
pub enum RegistryError {
    /// The key already has a live entry: a transfer for this conversation
    /// and message is already running.
    DuplicateTask,
}

/// The registry of in-flight transfers. The view maps each live
/// conversation key to whether its abort flag has been signalled.
pub struct CancellationRegistry {
    entries: Vec<(i64, i32, bool)>,
}

pub open spec fn entry_key(e: (i64, i32, bool)) -> (int, int) {
    (e.0 as int, e.1 as int)
}

pub open spec fn reg_view(s: Seq<(i64, i32, bool)>) -> Map<(int, int), bool>
    decreases s.len(),
{
    if s.len() == 0 {
        Map::empty()
    } else {
        reg_view(s.drop_last()).insert(entry_key(s.last()), s.last().2)
    }
}

pub open spec fn reg_wf(s: Seq<(i64, i32, bool)>) -> bool {
    forall|i: int, j: int|
        0 <= i < j < s.len() ==> entry_key(#[trigger] s[i]) != entry_key(#[trigger] s[j])
}

proof fn lemma_view_characterize(s: Seq<(i64, i32, bool)>)
    requires
        reg_wf(s),
    ensures
        forall|k: (int, int)|
            reg_view(s).contains_key(k) <==> exists|i: int|
                0 <= i < s.len() && entry_key(#[trigger] s[i]) == k,
        forall|i: int|
            0 <= i < s.len() ==> reg_view(s).contains_key(entry_key(#[trigger] s[i]))
                && reg_view(s)[entry_key(s[i])] == s[i].2,
    decreases s.len(),
{
    if s.len() > 0 {
        assert(reg_wf(s.drop_last()));
        lemma_view_characterize(s.drop_last());
        assert(forall|i: int| 0 <= i < s.len() - 1 ==> s.drop_last()[i] == s[i]);
        assert forall|i: int| 0 <= i < s.len() implies reg_view(s).contains_key(
            entry_key(#[trigger] s[i]),
        ) && reg_view(s)[entry_key(s[i])] == s[i].2 by {
            if i < s.len() - 1 {
                assert(entry_key(s[i]) != entry_key(s.last()));
            }
        }
        assert forall|k: (int, int)| reg_view(s).contains_key(k) implies exists|i: int|
            0 <= i < s.len() && entry_key(#[trigger] s[i]) == k by {
            if k == entry_key(s.last()) {
                assert(entry_key(s[s.len() - 1]) == k);
            } else {
                assert(reg_view(s.drop_last()).contains_key(k));
                let i = choose|i: int|
                    0 <= i < s.drop_last().len() && entry_key(#[trigger] s.drop_last()[i]) == k;
                assert(entry_key(s[i]) == k);
            }
        }
        assert forall|k: (int, int)|
            (exists|i: int| 0 <= i < s.len() && entry_key(#[trigger] s[i]) == k) implies reg_view(
            s,
        ).contains_key(k) by {
            let i = choose|i: int| 0 <= i < s.len() && entry_key(#[trigger] s[i]) == k;
            assert(reg_view(s).contains_key(entry_key(s[i])));
        }
    }
}

proof fn lemma_view_remove(s: Seq<(i64, i32, bool)>, j: int)
    requires
        reg_wf(s),
        0 <= j < s.len(),
    ensures
        reg_view(s.remove(j)) =~= reg_view(s).remove(entry_key(s[j])),
        reg_wf(s.remove(j)),
    decreases s.len(),
{
    lemma_view_characterize(s);
    assert forall|a: int, b: int| 0 <= a < b < s.remove(j).len() implies entry_key(
        #[trigger] s.remove(j)[a],
    ) != entry_key(#[trigger] s.remove(j)[b]) by {
        let a0 = if a < j {
            a
        } else {
            a + 1
        };
        let b0 = if b < j {
            b
        } else {
            b + 1
        };
        assert(s.remove(j)[a] == s[a0]);
        assert(s.remove(j)[b] == s[b0]);
    }
    if j == s.len() - 1 {
        assert(s.remove(j) =~= s.drop_last());
        assert(reg_wf(s.drop_last()));
        lemma_view_characterize(s.drop_last());
        assert(!reg_view(s.drop_last()).contains_key(entry_key(s.last()))) by {
            if reg_view(s.drop_last()).contains_key(entry_key(s.last())) {
                let i = choose|i: int|
                    0 <= i < s.drop_last().len() && entry_key(s.drop_last()[i]) == entry_key(
                        s.last(),
                    );
                assert(s.drop_last()[i] == s[i]);
            }
        }
        assert(reg_view(s.remove(j)) =~= reg_view(s).remove(entry_key(s[j])));
    } else {
        assert(s.remove(j).last() == s.last());
        assert(s.remove(j).drop_last() =~= s.drop_last().remove(j));
        assert(reg_wf(s.drop_last()));
        lemma_view_remove(s.drop_last(), j);
        assert(s.drop_last()[j] == s[j]);
        assert(entry_key(s[j]) != entry_key(s.last()));
        assert(reg_view(s.remove(j)) =~= reg_view(s.drop_last()).remove(
            entry_key(s[j]),
        ).insert(entry_key(s.last()), s.last().2));
        assert(reg_view(s.remove(j)) =~= reg_view(s).remove(entry_key(s[j])));
    }
}

impl CancellationRegistry {
    pub closed spec fn view(&self) -> Map<(int, int), bool> {
        reg_view(self.entries@)
    }

    pub closed spec fn wf(&self) -> bool {
        reg_wf(self.entries@)
    }

    /// An empty registry.
    pub fn new() -> (r: Self)
        ensures
            r.wf(),
            r@ == Map::<(int, int), bool>::empty(),
    {
        CancellationRegistry { entries: Vec::new() }
    }

    /// Index of the entry for the key, when one is live.
    fn find_index(&self, chat_id: i64, message_id: i32) -> (r: Option<usize>)
        requires
            self.wf(),
        ensures
            match r {
                Some(j) => j < self.entries@.len() && entry_key(self.entries@[j as int]) == (
                    chat_id as int,
                    message_id as int,
                ),
                None => !self@.contains_key((chat_id as int, message_id as int)),
            },
    {
        let n = self.entries.len();
        let mut i: usize = 0;
        while i < n
            invariant
                n == self.entries@.len(),
                i <= n,
                reg_wf(self.entries@),
                forall|k: int|
                    0 <= k < i ==> entry_key(#[trigger] self.entries@[k]) != (
                        chat_id as int,
                        message_id as int,
                    ),
            decreases n - i,
        {
            let e = &self.entries[i];
            if e.0 == chat_id && e.1 == message_id {
                return Some(i);
            }
            i = i + 1;
        }
        proof {
            lemma_view_characterize(self.entries@);
        }
        None
    }

    /// Whether the key has a live entry.
    pub fn is_registered(&self, chat_id: i64, message_id: i32) -> (r: bool)
        requires
            self.wf(),
        ensures
            r == self@.contains_key((chat_id as int, message_id as int)),
    {
        proof {
            lemma_view_characterize(self.entries@);
        }
        match self.find_index(chat_id, message_id) {
            Some(_) => true,
            None => false,
        }
    }

    /// Whether the key has a live entry whose abort flag is signalled: the
    /// check the transfer loop makes between chunks.
    pub fn is_cancelled(&self, chat_id: i64, message_id: i32) -> (r: bool)
        requires
            self.wf(),
        ensures
            r == (self@.contains_key((chat_id as int, message_id as int)) && self@[(
                chat_id as int,
                message_id as int,
            )]),
    {
        proof {
            lemma_view_characterize(self.entries@);
        }
        match self.find_index(chat_id, message_id) {
            Some(j) => self.entries[j].2,
            None => false,
        }
    }

    /// Creates a live entry for the key. Fails, changing nothing, when the
    /// key already has one: at most one in-flight transfer per key.
    pub fn register(&mut self, chat_id: i64, message_id: i32) -> (r: Result<(), RegistryError>)
        requires
            old(self).wf(),
        ensures
            final(self).wf(),
            old(self)@.contains_key((chat_id as int, message_id as int)) ==> r == Err::<
                (),
                RegistryError,
            >(RegistryError::DuplicateTask) && final(self)@ == old(self)@,
            !old(self)@.contains_key((chat_id as int, message_id as int)) ==> r == Ok::<
                (),
                RegistryError,
            >(()) && final(self)@ == old(self)@.insert((chat_id as int, message_id as int), false),
    {
        proof {
            lemma_view_characterize(self.entries@);
        }
        match self.find_index(chat_id, message_id) {
            Some(_) => Err(RegistryError::DuplicateTask),
            None => {
                let ghost s0 = self.entries@;
                self.entries.push((chat_id, message_id, false));
                proof {
                    assert(self.entries@.drop_last() =~= s0);
                    lemma_view_characterize(s0);
                    assert forall|a: int, b: int|
                        0 <= a < b < self.entries@.len() implies entry_key(
                        #[trigger] self.entries@[a],
                    ) != entry_key(#[trigger] self.entries@[b]) by {
                        if b == self.entries@.len() - 1 {
                            assert(self.entries@[a] == s0[a]);
                        }
                    }
                }
                Ok(())
            },
        }
    }

    /// Signals the key's abort flag. Returns whether a live entry existed;
    /// an absent key reports "not found" and changes nothing.
    pub fn cancel(&mut self, chat_id: i64, message_id: i32) -> (r: bool)
        requires
            old(self).wf(),
        ensures
            final(self).wf(),
            r == old(self)@.contains_key((chat_id as int, message_id as int)),
            r ==> final(self)@ == old(self)@.insert((chat_id as int, message_id as int), true),
            !r ==> final(self)@ == old(self)@,
    {
        proof {
            lemma_view_characterize(self.entries@);
        }
        match self.find_index(chat_id, message_id) {
            Some(j) => {
                let ghost s0 = self.entries@;
                self.entries.remove(j);
                proof {
                    lemma_view_remove(s0, j as int);
                }
                let ghost s1 = self.entries@;
                self.entries.push((chat_id, message_id, true));
                proof {
                    assert(self.entries@.drop_last() =~= s1);
                    lemma_view_characterize(s1);
                    assert forall|a: int, b: int|
                        0 <= a < b < self.entries@.len() implies entry_key(
                        #[trigger] self.entries@[a],
                    ) != entry_key(#[trigger] self.entries@[b]) by {
                        if b == self.entries@.len() - 1 {
                            assert(self.entries@[a] == s1[a]);
                            assert(!reg_view(s1).contains_key(
                                (chat_id as int, message_id as int),
                            ));
                        }
                    }
                    assert(final(self)@ =~= old(self)@.insert(
                        (chat_id as int, message_id as int),
                        true,
                    ));
                }
                true
            },
            None => false,
        }
    }

    /// Removes the key's entry. Returns whether one existed; removal of an
    /// absent key is benign, because cancellation and completion race.
    pub fn unregister(&mut self, chat_id: i64, message_id: i32) -> (r: bool)
        requires
            old(self).wf(),
        ensures
            final(self).wf(),
            r == old(self)@.contains_key((chat_id as int, message_id as int)),
            final(self)@ == old(self)@.remove((chat_id as int, message_id as int)),
    {
        proof {
            lemma_view_characterize(self.entries@);
        }
        match self.find_index(chat_id, message_id) {
            Some(j) => {
                let ghost s0 = self.entries@;
                self.entries.remove(j);
                proof {
                    lemma_view_remove(s0, j as int);
                }
                true
            },
            None => {
                proof {
                    assert(final(self)@ =~= old(self)@.remove(
                        (chat_id as int, message_id as int),
                    ));
                }
                false
            },
        }
    }
}

/// Registering a key twice without an unregister in between fails the
/// second time; after an unregister the key is free again.
pub proof fn lemma_register_semantics(m: Map<(int, int), bool>, k: (int, int))
    ensures
        m.insert(k, false).contains_key(k),
        !m.remove(k).contains_key(k),
{
}

} // verus!
