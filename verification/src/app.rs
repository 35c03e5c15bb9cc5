//! The application shell: panes of folders, the active pane, and the
//! command surface the input layer drives.

use vstd::prelude::*;

use crate::folder::{
    spec_less, spec_more, spec_next_page, spec_prev_page, spec_toggle_direction, Folder,
};
use crate::location::{url_ok, url_path, url_scheme};
use crate::MAX_DIM;

verus! {

/// One pane: a numbered group of folders shown together.
pub struct Pane {
    pub id: u16,
    pub folders: Vec<Folder>,
}

/// The viewer application: its panes, which pane is active, and the current
/// viewport dimensions in pixels.
pub struct App {
    pub title: String,
    pub current: u16,
    pub panes: Vec<Pane>,
    pub width: u32,
    pub height: u32,
}

/// Whether some pane carries this number.
pub open spec fn has_pane(panes: Seq<Pane>, id: u16) -> bool {
    exists|i: int| 0 <= i < panes.len() && (#[trigger] panes[i]).id == id
}

/// How a pagination command carries the application from `a0` to `a1`:
/// only the active pane's folders move — the leading one alone when
/// `first_only`, otherwise all of them — each by the command's `step`;
/// every other pane, and everything else, stays put.  Without an active
/// pane nothing moves at all.
pub open spec fn command_applied(
    a0: App,
    a1: App,
    first_only: bool,
    step: spec_fn(Folder) -> Folder,
) -> bool {
    &&& a1 == (App { panes: a1.panes, ..a0 })
    &&& a1.panes@.len() == a0.panes@.len()
    &&& forall|i: int|
        0 <= i < a0.panes@.len() && (#[trigger] a0.panes@[i]).id != a0.current ==> a1.panes@[i]
            == a0.panes@[i]
    &&& forall|i: int|
        0 <= i < a0.panes@.len() && (#[trigger] a0.panes@[i]).id == a0.current ==> {
            &&& a1.panes@[i].id == a0.panes@[i].id
            &&& a1.panes@[i].folders@ == if first_only {
                a0.panes@[i].folders@.update(0, step(a0.panes@[i].folders@[0]))
            } else {
                a0.panes@[i].folders@.map_values(step)
            }
        }
}

impl App {
    /// Well-formedness: pane numbers are unique, every pane holds at least
    /// one folder, every folder is well-formed, and the viewport dimensions
    /// stay within the engine's bound.
    pub open spec fn wf(self) -> bool {
        &&& forall|i: int, j: int|
            0 <= i < j < self.panes@.len() ==> self.panes@[i].id != self.panes@[j].id
        &&& forall|i: int|
            0 <= i < self.panes@.len() ==> (#[trigger] self.panes@[i]).folders@.len() >= 1
        &&& forall|i: int, j: int|
            0 <= i < self.panes@.len() && 0 <= j < self.panes@[i].folders@.len() ==> (
            #[trigger] self.panes@[i].folders@[j]).wf()
        &&& self.width <= MAX_DIM
        &&& self.height <= MAX_DIM
    }

    /// A fresh viewer: no panes yet, a one-pixel viewport until the window
    /// reports its size.
    pub fn new() -> (a: App)
        ensures
            a.wf(),
            a.title@ == "Reader"@,
            a.current == 0,
            a.panes@.len() == 0,
            a.width == 1,
            a.height == 1,
    {
        App { title: "Reader".to_owned(), current: 0, panes: Vec::new(), width: 1, height: 1 }
    }

    /// Gives the active pane a folder at the given location, if the pane
    /// does not exist yet; an existing pane is left alone.  Returns whether
    /// the active pane exists afterwards — it does not only when the
    /// location failed to parse.
    pub fn add_folder(&mut self, location: &str) -> (ok: bool)
        requires
            old(self).wf(),
        ensures
            final(self).wf(),
            has_pane(old(self).panes@, old(self).current) ==> *final(self) == *old(self) && ok,
            (!has_pane(old(self).panes@, old(self).current) && !url_ok(location@)) ==> (*final(self) == *old(self) && !ok),
            (!has_pane(old(self).panes@, old(self).current) && url_ok(location@)) ==> {
                let added = final(self).panes@.last();
                &&& ok
                &&& *final(self) == (App { panes: final(self).panes, ..*old(self) })
                &&& final(self).panes@.len() == old(self).panes@.len() + 1
                &&& final(self).panes@.take(old(self).panes@.len() as int) == old(self).panes@
                &&& added.id == old(self).current
                &&& added.folders@.len() == 1
                &&& added.folders@[0].wf()
                &&& added.folders@[0].location.scheme@ == url_scheme(location@)
                &&& added.folders@[0].location.path@ == url_path(location@)
                &&& added.folders@[0].items@.len() == 0
            },
    {
        let n = self.panes.len();
        let mut i: usize = 0;
        while i < n
            invariant
                n == self.panes@.len(),
                0 <= i <= n,
                self == old(self),
                self.wf(),
                forall|j: int| 0 <= j < i ==> (#[trigger] self.panes@[j]).id != self.current,
            decreases n - i,
        {
            if self.panes[i].id == self.current {
                return true;
            }
            i = i + 1;
        }
        assert(!has_pane(self.panes@, self.current));
        match Folder::new(location) {
            Some(f) => {
                let mut folders: Vec<Folder> = Vec::new();
                folders.push(f);
                let id = self.current;
                self.panes.push(Pane { id, folders });
                proof {
                    assert(final(self).panes@.take(old(self).panes@.len() as int) =~= old(
                        self,
                    ).panes@);
                    let np = self.panes@;
                    let n0 = old(self).panes@.len() as int;
                    assert forall|a: int, b: int| 0 <= a < b < np.len() implies np[a].id
                        != np[b].id by {
                        if b < n0 {
                            assert(old(self).panes@[a].id != old(self).panes@[b].id);
                        } else {
                            assert(np[b].id == self.current);
                            assert(np[a] == old(self).panes@[a]);
                        }
                    }
                    assert forall|a: int, b: int|
                        0 <= a < np.len() && 0 <= b < np[a].folders@.len() implies (
                    #[trigger] np[a].folders@[b]).wf() by {
                        if a < n0 {
                            assert(np[a] == old(self).panes@[a]);
                            assert(old(self).panes@[a].folders@[b].wf());
                        }
                    }
                }
                true
            },
            None => false,
        }
    }

    /// Turns the active pane's leading folder to its next page.  Without an
    /// active pane the command is a no-op.
    pub fn next_page(&mut self)
        requires
            old(self).wf(),
        ensures
            final(self).wf(),
            !has_pane(old(self).panes@, old(self).current) ==> *final(self) == *old(self),
            command_applied(*old(self), *final(self), true, |f: Folder| spec_next_page(f)),
    {
        let n = self.panes.len();
        let mut i: usize = 0;
        while i < n
            invariant
                n == self.panes@.len(),
                0 <= i <= n,
                self == old(self),
                old(self).wf(),
                forall|j: int| 0 <= j < i ==> (#[trigger] self.panes@[j]).id != self.current,
            decreases n - i,
        {
            if self.panes[i].id == self.current {
                let pane = &mut self.panes[i];
                let f = &mut pane.folders[0];
                f.next_page();
                return ;
            }
            i = i + 1;
        }
    }

    /// Turns the active pane's leading folder back one page.  Without an
    /// active pane the command is a no-op.
    pub fn prev_page(&mut self)
        requires
            old(self).wf(),
        ensures
            final(self).wf(),
            !has_pane(old(self).panes@, old(self).current) ==> *final(self) == *old(self),
            command_applied(*old(self), *final(self), true, |f: Folder| spec_prev_page(f)),
    {
        let n = self.panes.len();
        let mut i: usize = 0;
        while i < n
            invariant
                n == self.panes@.len(),
                0 <= i <= n,
                self == old(self),
                old(self).wf(),
                forall|j: int| 0 <= j < i ==> (#[trigger] self.panes@[j]).id != self.current,
            decreases n - i,
        {
            if self.panes[i].id == self.current {
                let pane = &mut self.panes[i];
                let f = &mut pane.folders[0];
                f.prev_page();
                return ;
            }
            i = i + 1;
        }
    }

    /// Grows the page size of every folder in the active pane.  Without an
    /// active pane the command is a no-op.
    pub fn more(&mut self)
        requires
            old(self).wf(),
        ensures
            final(self).wf(),
            !has_pane(old(self).panes@, old(self).current) ==> *final(self) == *old(self),
            command_applied(*old(self), *final(self), false, |f: Folder| spec_more(f)),
    {
        let n = self.panes.len();
        let mut i: usize = 0;
        while i < n
            invariant
                n == self.panes@.len(),
                0 <= i <= n,
                self == old(self),
                old(self).wf(),
                forall|j: int| 0 <= j < i ==> (#[trigger] self.panes@[j]).id != self.current,
            decreases n - i,
        {
            if self.panes[i].id == self.current {
                let pane = &mut self.panes[i];
                more_all(&mut pane.folders);
                return ;
            }
            i = i + 1;
        }
    }

    /// Shrinks the page size of every folder in the active pane.  Without
    /// an active pane the command is a no-op.
    pub fn less(&mut self)
        requires
            old(self).wf(),
        ensures
            final(self).wf(),
            !has_pane(old(self).panes@, old(self).current) ==> *final(self) == *old(self),
            command_applied(*old(self), *final(self), false, |f: Folder| spec_less(f)),
    {
        let n = self.panes.len();
        let mut i: usize = 0;
        while i < n
            invariant
                n == self.panes@.len(),
                0 <= i <= n,
                self == old(self),
                old(self).wf(),
                forall|j: int| 0 <= j < i ==> (#[trigger] self.panes@[j]).id != self.current,
            decreases n - i,
        {
            if self.panes[i].id == self.current {
                let pane = &mut self.panes[i];
                less_all(&mut pane.folders);
                return ;
            }
            i = i + 1;
        }
    }

    /// Flips the flow direction of every folder in the active pane.
    /// Without an active pane the command is a no-op.
    pub fn toggle_direction(&mut self)
        requires
            old(self).wf(),
        ensures
            final(self).wf(),
            !has_pane(old(self).panes@, old(self).current) ==> *final(self) == *old(self),
            command_applied(*old(self), *final(self), false, |f: Folder| spec_toggle_direction(f)),
    {
        let n = self.panes.len();
        let mut i: usize = 0;
        while i < n
            invariant
                n == self.panes@.len(),
                0 <= i <= n,
                self == old(self),
                old(self).wf(),
                forall|j: int| 0 <= j < i ==> (#[trigger] self.panes@[j]).id != self.current,
            decreases n - i,
        {
            if self.panes[i].id == self.current {
                let pane = &mut self.panes[i];
                toggle_all(&mut pane.folders);
                return ;
            }
            i = i + 1;
        }
    }

    /// Records the window's new pixel dimensions.
    pub fn resize(&mut self, width: u32, height: u32)
        requires
            old(self).wf(),
            width <= MAX_DIM,
            height <= MAX_DIM,
        ensures
            final(self).wf(),
            *final(self) == (App { width, height, ..*old(self) }),
    {
        self.width = width;
        self.height = height;
    }
}

impl Default for App {
    /// Same as [`App::new`].
    fn default() -> (a: Self)
        ensures
            a.wf(),
            a.title@ == "Reader"@,
            a.current == 0,
            a.panes@.len() == 0,
            a.width == 1,
            a.height == 1,
    {
        App::new()
    }
}

/// Grows the page size of every folder in the group.
fn more_all(folders: &mut Vec<Folder>)
    requires
        forall|j: int| 0 <= j < old(folders)@.len() ==> (#[trigger] old(folders)@[j]).wf(),
    ensures
        final(folders)@ == old(folders)@.map_values(|f: Folder| spec_more(f)),
        forall|j: int| 0 <= j < final(folders)@.len() ==> (#[trigger] final(folders)@[j]).wf(),
{
    let n = folders.len();
    let mut j: usize = 0;
    while j < n
        invariant
            n == folders@.len(),
            0 <= j <= n,
            forall|q: int| 0 <= q < n ==> (#[trigger] folders@[q]).wf(),
            forall|q: int| j <= q < n ==> #[trigger] folders@[q] == old(folders)@[q],
            forall|q: int| 0 <= q < j ==> #[trigger] folders@[q] == spec_more(old(folders)@[q]),
        decreases n - j,
    {
        let f = &mut folders[j];
        f.more();
        j = j + 1;
    }
    proof {
        assert(folders@ =~= old(folders)@.map_values(|f: Folder| spec_more(f)));
    }
}

/// Shrinks the page size of every folder in the group.
fn less_all(folders: &mut Vec<Folder>)
    requires
        forall|j: int| 0 <= j < old(folders)@.len() ==> (#[trigger] old(folders)@[j]).wf(),
    ensures
        final(folders)@ == old(folders)@.map_values(|f: Folder| spec_less(f)),
        forall|j: int| 0 <= j < final(folders)@.len() ==> (#[trigger] final(folders)@[j]).wf(),
{
    let n = folders.len();
    let mut j: usize = 0;
    while j < n
        invariant
            n == folders@.len(),
            0 <= j <= n,
            forall|q: int| 0 <= q < n ==> (#[trigger] folders@[q]).wf(),
            forall|q: int| j <= q < n ==> #[trigger] folders@[q] == old(folders)@[q],
            forall|q: int| 0 <= q < j ==> #[trigger] folders@[q] == spec_less(old(folders)@[q]),
        decreases n - j,
    {
        let f = &mut folders[j];
        f.less();
        j = j + 1;
    }
    proof {
        assert(folders@ =~= old(folders)@.map_values(|f: Folder| spec_less(f)));
    }
}

/// Flips the flow direction of every folder in the group.
fn toggle_all(folders: &mut Vec<Folder>)
    requires
        forall|j: int| 0 <= j < old(folders)@.len() ==> (#[trigger] old(folders)@[j]).wf(),
    ensures
        final(folders)@ == old(folders)@.map_values(|f: Folder| spec_toggle_direction(f)),
        forall|j: int| 0 <= j < final(folders)@.len() ==> (#[trigger] final(folders)@[j]).wf(),
{
    let n = folders.len();
    let mut j: usize = 0;
    while j < n
        invariant
            n == folders@.len(),
            0 <= j <= n,
            forall|q: int| 0 <= q < n ==> (#[trigger] folders@[q]).wf(),
            forall|q: int| j <= q < n ==> #[trigger] folders@[q] == old(folders)@[q],
            forall|q: int|
                0 <= q < j ==> #[trigger] folders@[q] == spec_toggle_direction(old(folders)@[q]),
        decreases n - j,
    {
        let f = &mut folders[j];
        f.toggle_direction();
        j = j + 1;
    }
    proof {
        assert(folders@ =~= old(folders)@.map_values(|f: Folder| spec_toggle_direction(f)));
    }
}

} // verus!
