//! The browsing history list, kept beside its namesake in `utils`: both
//! files ship the same selection type, and callers may reach it through
//! either path.

use vstd::prelude::*;

verus! {

/// A selection inside a navigable history: the items behind the selection,
/// the selected item, and the items in front of it.
#[derive(Debug)]
pub struct SelectList<T> {
    pub previous: Vec<T>,
    pub selected: T,
    pub next: Vec<T>,
}

impl<T: Clone> SelectList<T> {
    /// Steps the selection back by one, when something is behind it: the last
    /// item of `previous` becomes selected and the old selection moves to the
    /// front of `next`. With nothing behind it the list is unchanged.
    pub fn previous(&mut self)
        ensures
            old(self).previous@.len() == 0 ==> {
                &&& final(self).selected == old(self).selected
                &&& final(self).previous@ == old(self).previous@
                &&& final(self).next@ == old(self).next@
            },
            old(self).previous@.len() > 0 ==> {
                &&& final(self).selected == old(self).previous@.last()
                &&& final(self).previous@ == old(self).previous@.drop_last()
                &&& final(self).next@ == seq![old(self).selected] + old(self).next@
            },
    {
        if let Some(mut new) = self.previous.pop() {
            core::mem::swap(&mut self.selected, &mut new);
            self.next.insert(0, new);
            proof {
                assert(final(self).next@ =~= seq![old(self).selected] + old(self).next@);
            }
        }
    }

    /// Steps the selection forward by one, when something is in front of it:
    /// the first item of `next` becomes selected and the old selection is
    /// appended to `previous`. With nothing in front the list is unchanged.
    pub fn forward(&mut self)
        ensures
            old(self).next@.len() == 0 ==> {
                &&& final(self).selected == old(self).selected
                &&& final(self).previous@ == old(self).previous@
                &&& final(self).next@ == old(self).next@
            },
            old(self).next@.len() > 0 ==> {
                &&& final(self).selected == old(self).next@[0]
                &&& final(self).next@ == old(self).next@.drop_first()
                &&& final(self).previous@ == old(self).previous@.push(old(self).selected)
            },
    {
        if !self.next.is_empty() {
            let mut new = self.next.remove(0);
            core::mem::swap(&mut self.selected, &mut new);
            self.previous.push(new);
            proof {
                assert(final(self).next@ =~= old(self).next@.drop_first());
            }
        }
    }

    /// Makes `item` the selection: everything in front of the old selection
    /// is discarded and a copy of the old selection is appended to
    /// `previous`.
    pub fn add(&mut self, item: T)
        ensures
            final(self).selected == item,
            final(self).next@.len() == 0,
            final(self).previous@.len() == old(self).previous@.len() + 1,
            final(self).previous@.drop_last() == old(self).previous@,
            vstd::pervasive::cloned(old(self).selected, final(self).previous@.last()),
    {
        self.next.clear();
        self.previous.push(self.selected.clone());
        self.selected = item;
        proof {
            assert(final(self).previous@.drop_last() =~= old(self).previous@);
        }
    }

    /// A history holding only `item`, with nothing behind or in front of it.
    pub fn new(item: T) -> (r: SelectList<T>)
        ensures
            r.previous@.len() == 0,
            r.selected == item,
            r.next@.len() == 0,
    {
        SelectList { previous: Vec::<T>::new(), selected: item, next: Vec::<T>::new() }
    }
}

} // verus!
