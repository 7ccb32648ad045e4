use vstd::prelude::*;

use crate::age_filter::AgeFilter;
use crate::cycle::{spec_next, Cycle};
use crate::filter::{filter_dirs, view_spec};
use crate::registry::{has_path, not_path, Registry};
use crate::scanner::CruftDirectory;
use crate::size_filter::SizeFilter;
use crate::sort_order::SortOrder;
use crate::type_filter::TypeFilter;

verus! {

/// One user action, as the interaction loop hands it to the state
/// machine after decoding a key press.
#[derive(Clone, Copy, PartialEq, Eq, Structural, Debug)]
pub enum SessionAction {
    SelectNext,
    SelectPrevious,
    ToggleAllTypes,
    ToggleSkipSmall,
    ToggleOldDirs,
    ToggleSortOrder,
    RequestDelete,
    DeleteNow,
    Confirm,
    Cancel,
    Quit,
}

/// What the interaction loop must do after a step: carry on, perform a
/// deletion of the named path, or end the session.
pub enum SessionCommand {
    Continue,
    Delete(String),
    Quit,
}

/// The interaction state: current filter and sort configuration, the
/// stable-path selection, the pending-deletion sub-state, and the
/// progress indicators.
pub struct AppState {
    /// The path of the selected entry; survives list reordering.
    pub selected_path: Option<String>,
    /// The path awaiting deletion confirmation, when one is pending.
    pub confirm_delete: Option<String>,
    pub age_filter: AgeFilter,
    pub sort_order: SortOrder,
    pub size_filter: SizeFilter,
    pub type_filter: TypeFilter,
    pub scan_complete: bool,
    pub spinner_frame: usize,
}

/// The selected path, at the mathematical level.
pub open spec fn spec_selected(s: AppState) -> Option<Seq<char>> {
    match s.selected_path {
        Some(p) => Some(p@),
        None => None,
    }
}

/// The path pending deletion, at the mathematical level.
pub open spec fn spec_confirm(s: AppState) -> Option<Seq<char>> {
    match s.confirm_delete {
        Some(p) => Some(p@),
        None => None,
    }
}

/// The position of the first entry with path `p`, if any.
pub open spec fn path_index(s: Seq<CruftDirectory>, p: Seq<char>) -> Option<int>
    decreases s.len(),
{
    if s.len() == 0 {
        None
    } else if s[0].path@ == p {
        Some(0)
    } else {
        match path_index(s.drop_first(), p) {
            Some(i) => Some(i + 1),
            None => None,
        }
    }
}

/// Where the current selection sits in the given view.
pub open spec fn selection_index(s: AppState, view: Seq<CruftDirectory>) -> Option<int> {
    match s.selected_path {
        Some(p) => path_index(view, p@),
        None => None,
    }
}

/// Where a navigation step lands: one step from the current position,
/// clamped at the ends (no wrap-around), or the first entry when nothing
/// was selected.
pub open spec fn step_index(cur: Option<int>, len: int, forward: bool) -> int {
    match cur {
        Some(c) => if forward {
            if c + 1 > len - 1 {
                len - 1
            } else {
                c + 1
            }
        } else {
            if c - 1 < 0 {
                0
            } else {
                c - 1
            }
        },
        None => 0,
    }
}

/// A navigation step's effect: nothing on an empty view; otherwise only
/// the selection changes, to the path of the entry one step away.
pub open spec fn sel_step_post(
    pre: AppState,
    post: AppState,
    view: Seq<CruftDirectory>,
    forward: bool,
) -> bool {
    if view.len() == 0 {
        post == pre
    } else {
        &&& post == (AppState { selected_path: post.selected_path, ..pre })
        &&& spec_selected(post) == Some(
            view[step_index(selection_index(pre, view), view.len() as int, forward)].path@,
        )
    }
}

proof fn lemma_path_index_found(s: Seq<CruftDirectory>, p: Seq<char>, i: int)
    requires
        0 <= i < s.len(),
        s[i].path@ == p,
        forall|k: int| 0 <= k < i ==> s[k].path@ != p,
    ensures
        path_index(s, p) == Some(i),
    decreases i,
{
    if i > 0 {
        assert(forall|k: int| 0 <= k < s.drop_first().len() ==> s.drop_first()[k] == s[k + 1]);
        lemma_path_index_found(s.drop_first(), p, i - 1);
    }
}

proof fn lemma_path_index_none(s: Seq<CruftDirectory>, p: Seq<char>)
    requires
        forall|k: int| 0 <= k < s.len() ==> s[k].path@ != p,
    ensures
        path_index(s, p) == None::<int>,
    decreases s.len(),
{
    if s.len() > 0 {
        assert(forall|k: int| 0 <= k < s.drop_first().len() ==> s.drop_first()[k] == s[k + 1]);
        lemma_path_index_none(s.drop_first(), p);
    }
}

/// The position of the first entry carrying this path, if any is there.
pub fn position_of_path(list: &Vec<CruftDirectory>, path: &String) -> (r: Option<usize>)
    ensures
        (match r {
            Some(i) => Some(i as int),
            None => None,
        }) == path_index(list@, path@),
        (match r {
            Some(i) => i < list@.len() && list@[i as int].path@ == path@,
            None => true,
        }),
{
    let mut i: usize = 0;
    while i < list.len()
        invariant
            i <= list@.len(),
            forall|k: int| 0 <= k < i ==> list@[k].path@ != path@,
        decreases list@.len() - i,
    {
        if list[i].path == *path {
            proof {
                lemma_path_index_found(list@, path@, i as int);
            }
            return Some(i);
        }
        i = i + 1;
    }
    proof {
        lemma_path_index_none(list@, path@);
    }
    None
}

impl AppState {
    /// A fresh session: default filters (skip small entries, common
    /// types only, no age limit), size-descending order, no selection,
    /// nothing pending.
    pub fn new() -> (r: AppState)
        ensures
            r.selected_path is None,
            r.confirm_delete is None,
            r.size_filter == SizeFilter::SkipSmall,
            r.age_filter == AgeFilter::NoLimit,
            r.sort_order == SortOrder::SizeDescending,
            r.type_filter == TypeFilter::CommonOnly,
            !r.scan_complete,
            r.spinner_frame == 0,
    {
        AppState {
            selected_path: None,
            confirm_delete: None,
            size_filter: SizeFilter::SkipSmall,
            age_filter: AgeFilter::NoLimit,
            sort_order: SortOrder::SizeDescending,
            type_filter: TypeFilter::CommonOnly,
            scan_complete: false,
            spinner_frame: 0,
        }
    }

    /// Advances the sort order to its successor.
    pub fn toggle_sort_order(&mut self)
        ensures
            *final(self) == (AppState { sort_order: spec_next(old(self).sort_order), ..*old(self) }),
    {
        self.sort_order = self.sort_order.next();
        proof {
            old(self).sort_order.lemma_cycle_index();
        }
    }

    /// Advances the spinner animation frame.
    pub fn update_spinner(&mut self)
        ensures
            *final(self) == (AppState {
                spinner_frame: ((old(self).spinner_frame + 1) % 8) as usize,
                ..*old(self)
            }),
    {
        let turn = self.spinner_frame % 8;
        proof {
            let ghost f = old(self).spinner_frame as int;
            assert((f % 8 + 1) % 8 == (f + 1) % 8) by (nonlinear_arith)
                requires
                    f >= 0,
            ;
        }
        self.spinner_frame = (turn + 1) % 8;
    }

    /// Records that the scan has finished.
    pub fn mark_scan_complete(&mut self)
        ensures
            *final(self) == (AppState { scan_complete: true, ..*old(self) }),
    {
        self.scan_complete = true;
    }

    /// Advances the size filter to its successor.
    pub fn toggle_skip_small(&mut self)
        ensures
            *final(self) == (AppState { size_filter: spec_next(old(self).size_filter), ..*old(self) }),
    {
        self.size_filter = self.size_filter.next();
        proof {
            old(self).size_filter.lemma_cycle_index();
        }
    }

    /// Advances the age filter to its successor.
    pub fn toggle_old_dirs(&mut self)
        ensures
            *final(self) == (AppState { age_filter: spec_next(old(self).age_filter), ..*old(self) }),
    {
        self.age_filter = self.age_filter.next();
        proof {
            old(self).age_filter.lemma_cycle_index();
        }
    }

    /// Advances the type filter to its successor.
    pub fn toggle_all_types(&mut self)
        ensures
            *final(self) == (AppState { type_filter: spec_next(old(self).type_filter), ..*old(self) }),
    {
        self.type_filter = self.type_filter.next();
        proof {
            old(self).type_filter.lemma_cycle_index();
        }
    }

    /// Stores the path whose deletion now awaits confirmation.
    pub fn request_delete_confirmation(&mut self, path: String)
        ensures
            *final(self) == (AppState { confirm_delete: final(self).confirm_delete, ..*old(self) }),
            spec_confirm(*final(self)) == Some(path@),
    {
        self.confirm_delete = Some(path);
    }

    /// Abandons the pending deletion.
    pub fn cancel_delete_confirmation(&mut self)
        ensures
            *final(self) == (AppState { confirm_delete: None, ..*old(self) }),
    {
        self.confirm_delete = None;
    }

    /// Moves the selection to the adjacent entry of the current view,
    /// clamping at the ends; selects the first entry when nothing was
    /// selected. An empty view leaves the state alone.
    pub fn select_next_or_previous(&mut self, filtered: &Vec<CruftDirectory>, forward: bool)
        ensures
            sel_step_post(*old(self), *final(self), filtered@, forward),
    {
        if filtered.len() == 0 {
            return;
        }
        let cur: Option<usize> = match &self.selected_path {
            Some(sp) => position_of_path(filtered, sp),
            None => None,
        };
        let new_pos: usize = match cur {
            Some(c) => if forward {
                if c + 1 < filtered.len() {
                    c + 1
                } else {
                    filtered.len() - 1
                }
            } else {
                if c > 0 {
                    c - 1
                } else {
                    0
                }
            },
            None => 0,
        };
        proof {
            assert(new_pos as int == step_index(
                selection_index(*old(self), filtered@),
                filtered@.len() as int,
                forward,
            ));
        }
        self.selected_path = Some(filtered[new_pos].path.clone());
    }

    /// Re-validates the selection against a freshly filtered view: a
    /// selection still in view is kept, a vanished one falls back to the
    /// first entry, and an empty view clears it.
    pub fn update_selection(&mut self, filtered: &Vec<CruftDirectory>)
        ensures
            *final(self) == (AppState { selected_path: final(self).selected_path, ..*old(self) }),
            filtered@.len() == 0 ==> spec_selected(*final(self)) is None,
            filtered@.len() > 0 ==> spec_selected(*final(self)) == (match selection_index(
                *old(self),
                filtered@,
            ) {
                Some(i) => spec_selected(*old(self)),
                None => Some(filtered@[0].path@),
            }),
    {
        if filtered.len() == 0 {
            self.selected_path = None;
            return;
        }
        let keep: bool = match &self.selected_path {
            Some(sp) => match position_of_path(filtered, sp) {
                Some(_) => true,
                None => false,
            },
            None => false,
        };
        if !keep {
            self.selected_path = Some(filtered[0].path.clone());
        }
    }

    /// The view the session shows: the registry snapshot put through the
    /// current filter and sort configuration.
    pub fn view(&self, dirs: &Vec<CruftDirectory>) -> (r: Vec<CruftDirectory>)
        ensures
            r@ == view_spec(dirs@, self.size_filter, self.type_filter, self.age_filter,
                self.sort_order),
    {
        filter_dirs(dirs, self.size_filter, self.type_filter, self.age_filter, self.sort_order)
    }

    /// One step of the interaction state machine. In `Browsing` (no
    /// pending deletion) navigation, filter and sort cycling, deletion
    /// requests and quitting are legal; with a deletion pending only
    /// confirm and cancel do anything. The returned command tells the
    /// loop what to perform.
    pub fn handle_action(&mut self, filtered: &Vec<CruftDirectory>, action: SessionAction) -> (cmd:
        SessionCommand)
        ensures
            old(self).confirm_delete is Some ==> match action {
                SessionAction::Confirm => {
                    &&& *final(self) == (AppState { confirm_delete: None, ..*old(self) })
                    &&& (cmd matches SessionCommand::Delete(p) && Some(p@) == spec_confirm(
                        *old(self),
                    ))
                },
                SessionAction::Cancel => {
                    &&& *final(self) == (AppState { confirm_delete: None, ..*old(self) })
                    &&& cmd is Continue
                },
                _ => *final(self) == *old(self) && cmd is Continue,
            },
            old(self).confirm_delete is None ==> match action {
                SessionAction::SelectNext => sel_step_post(*old(self), *final(self), filtered@, true)
                    && cmd is Continue,
                SessionAction::SelectPrevious => sel_step_post(
                    *old(self),
                    *final(self),
                    filtered@,
                    false,
                ) && cmd is Continue,
                SessionAction::ToggleAllTypes => *final(self) == (AppState {
                    type_filter: spec_next(old(self).type_filter),
                    ..*old(self)
                }) && cmd is Continue,
                SessionAction::ToggleSkipSmall => *final(self) == (AppState {
                    size_filter: spec_next(old(self).size_filter),
                    ..*old(self)
                }) && cmd is Continue,
                SessionAction::ToggleOldDirs => *final(self) == (AppState {
                    age_filter: spec_next(old(self).age_filter),
                    ..*old(self)
                }) && cmd is Continue,
                SessionAction::ToggleSortOrder => *final(self) == (AppState {
                    sort_order: spec_next(old(self).sort_order),
                    ..*old(self)
                }) && cmd is Continue,
                SessionAction::RequestDelete => {
                    &&& cmd is Continue
                    &&& *final(self) == (AppState {
                        confirm_delete: final(self).confirm_delete,
                        ..*old(self)
                    })
                    &&& spec_confirm(*final(self)) == (if spec_selected(*old(self)) is Some {
                        spec_selected(*old(self))
                    } else {
                        spec_confirm(*old(self))
                    })
                },
                SessionAction::DeleteNow => {
                    &&& *final(self) == *old(self)
                    &&& (spec_selected(*old(self)) is Some ==> (cmd matches SessionCommand::Delete(
                        p,
                    ) && Some(p@) == spec_selected(*old(self))))
                    &&& (spec_selected(*old(self)) is None ==> cmd is Continue)
                },
                SessionAction::Confirm => *final(self) == *old(self) && cmd is Continue,
                SessionAction::Cancel => *final(self) == *old(self) && cmd is Continue,
                SessionAction::Quit => *final(self) == *old(self) && cmd is Quit,
            },
    {
        let pending = match &self.confirm_delete {
            Some(_) => true,
            None => false,
        };
        if pending {
            match action {
                SessionAction::Confirm => {
                    let path = match &self.confirm_delete {
                        Some(p) => p.clone(),
                        None => String::new(),
                    };
                    self.confirm_delete = None;
                    SessionCommand::Delete(path)
                },
                SessionAction::Cancel => {
                    self.cancel_delete_confirmation();
                    SessionCommand::Continue
                },
                _ => SessionCommand::Continue,
            }
        } else {
            match action {
                SessionAction::SelectNext => {
                    self.select_next_or_previous(filtered, true);
                    SessionCommand::Continue
                },
                SessionAction::SelectPrevious => {
                    self.select_next_or_previous(filtered, false);
                    SessionCommand::Continue
                },
                SessionAction::ToggleAllTypes => {
                    self.toggle_all_types();
                    SessionCommand::Continue
                },
                SessionAction::ToggleSkipSmall => {
                    self.toggle_skip_small();
                    SessionCommand::Continue
                },
                SessionAction::ToggleOldDirs => {
                    self.toggle_old_dirs();
                    SessionCommand::Continue
                },
                SessionAction::ToggleSortOrder => {
                    self.toggle_sort_order();
                    SessionCommand::Continue
                },
                SessionAction::RequestDelete => {
                    let sel = match &self.selected_path {
                        Some(p) => Some(p.clone()),
                        None => None,
                    };
                    match sel {
                        Some(p) => self.request_delete_confirmation(p),
                        None => (),
                    }
                    SessionCommand::Continue
                },
                SessionAction::DeleteNow => {
                    match &self.selected_path {
                        Some(p) => SessionCommand::Delete(p.clone()),
                        None => SessionCommand::Continue,
                    }
                },
                SessionAction::Confirm => SessionCommand::Continue,
                SessionAction::Cancel => SessionCommand::Continue,
                SessionAction::Quit => SessionCommand::Quit,
            }
        }
    }
}

/// Applies the outcome of an attempted filesystem removal to the
/// registry: a successful removal drops the entry; a failed one leaves
/// the registry exactly as it was, so the operator sees the entry and
/// may retry. Returns whether an entry was dropped.
pub fn apply_delete_outcome(reg: &mut Registry, path: &String, removed_on_disk: bool) -> (r: bool)
    requires
        old(reg).wf(),
    ensures
        final(reg).wf(),
        removed_on_disk ==> final(reg).spec_entries() == old(reg).spec_entries().filter(
            not_path(path@),
        ) && r == has_path(old(reg).spec_entries(), path@),
        !removed_on_disk ==> *final(reg) == *old(reg) && r == false,
{
    if removed_on_disk {
        reg.remove(path)
    } else {
        false
    }
}

} // verus!
