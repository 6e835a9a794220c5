//! Which key does what.

use crate::config::proc::preferred;
use crate::console::action::Action;
use crate::term::key::Key;
use vstd::prelude::*;

verus! {

/// Where a key is pressed.
#[derive(Clone, Copy, Debug, PartialEq, Eq, Structural)]
pub enum KeymapGroup {
    Procs,
    Term,
    Copy,
}

pub struct Binding {
    pub group: KeymapGroup,
    pub key: Key,
    pub action: Action,
}

pub struct Keymap {
    pub bindings: Vec<Binding>,
}

impl View for Keymap {
    type V = Seq<Binding>;

    open spec fn view(&self) -> Seq<Binding> {
        self.bindings@
    }
}

/// The action of the last binding of a key.
pub open spec fn bound(bindings: Seq<Binding>, group: KeymapGroup, key: Key) -> Option<Action>
    decreases bindings.len(),
{
    if bindings.len() == 0 {
        None
    } else if bindings.last().group == group && bindings.last().key == key {
        Some(bindings.last().action)
    } else {
        bound(bindings.drop_last(), group, key)
    }
}

/// What a key is bound to later counts.
pub proof fn later_bindings_win(
    first: Seq<Binding>,
    later: Seq<Binding>,
    group: KeymapGroup,
    key: Key,
)
    ensures
        bound(first + later, group, key) == preferred(
            bound(later, group, key),
            bound(first, group, key),
        ),
    decreases later.len(),
{
    let all = first + later;
    if later.len() == 0 {
        assert(all =~= first);
    } else {
        later_bindings_win(first, later.drop_last(), group, key);
        assert(all.drop_last() =~= first + later.drop_last());
        assert(all.last() == later.last());
    }
}

impl Keymap {
    pub fn new() -> (r: Self)
        ensures
            r@ == Seq::<Binding>::empty(),
    {
        Keymap { bindings: Vec::new() }
    }

    /// Binds a key, in place of what it was bound to before.
    pub fn bind(&mut self, group: KeymapGroup, key: Key, action: Action)
        ensures
            bound(final(self)@, group, key) == Some(action),
            forall|g: KeymapGroup, k: Key|
                !(g == group && k == key) ==> #[trigger] bound(final(self)@, g, k) == bound(
                    old(self)@,
                    g,
                    k,
                ),
    {
        self.bindings.push(Binding { group, key, action });
        proof {
            assert(self@.drop_last() =~= old(self)@);
        }
    }

    /// Binds keys after those that are bound already.
    pub fn extend(&mut self, later: Keymap)
        ensures
            final(self)@ == old(self)@ + later@,
    {
        let mut bindings = later.bindings;
        self.bindings.append(&mut bindings);
    }

    pub fn resolve(&self, group: KeymapGroup, key: &Key) -> (r: Option<&Action>)
        ensures
            match r {
                Some(action) => bound(self@, group, *key) == Some(*action),
                None => bound(self@, group, *key) is None,
            },
    {
        let mut i: usize = self.bindings.len();
        proof {
            assert(self@.take(i as int) =~= self@);
        }
        while i > 0
            invariant
                i <= self@.len(),
                bound(self@, group, *key) == bound(self@.take(i as int), group, *key),
            decreases i,
        {
            proof {
                assert(self@.take(i as int).drop_last() =~= self@.take(i - 1));
                assert(self@.take(i as int).last() == self@[i - 1]);
            }
            i -= 1;
            if self.bindings[i].group == group && self.bindings[i].key == *key {
                return Some(&self.bindings[i].action);
            }
        }
        None
    }
}

} // verus!
