use vstd::prelude::*;
use crate::action::{Action, ActionView, actions_view};
use crate::error::ScaffoldError;
use crate::paths::{
    strings_view, starts_with, mapped_path, has_prefix, ends_with_char, map_entry_path,
    copy_components, same_components, all_safe, safe_component, split_slash, is_parent_piece,
    lemma_mapped_path_safe,
};
use crate::triggers::{
    Trigger, TriggerView, trigger_table, trigger_actions, triggers_view, scaffold_triggers, side_effects,
};

verus! {

/// An archive entry as read: its path inside the archive, its recorded POSIX mode,
/// and its decompressed bytes (empty for a directory).
pub struct Entry {
    pub name: String,
    pub unix_mode: Option<u32>,
    pub data: Vec<u8>,
}

pub struct EntryView {
    pub name: Seq<char>,
    pub unix_mode: Option<u32>,
    pub data: Seq<u8>,
}

impl View for Entry {
    type V = EntryView;

    open spec fn view(&self) -> EntryView {
        EntryView { name: self.name@, unix_mode: self.unix_mode, data: self.data@ }
    }
}

pub open spec fn entries_view(v: Seq<Entry>) -> Seq<EntryView> {
    v.map_values(|e: Entry| e@)
}

/// The plan built so far: the actions in order, and the directory entries already
/// created (whose triggers have fired).
pub struct PlanView {
    pub actions: Seq<ActionView>,
    pub created: Seq<Seq<Seq<char>>>,
}

pub open spec fn empty_plan() -> PlanView {
    PlanView { actions: seq![], created: seq![] }
}

/// A directory entry: its path ends with the archive's separator.
pub open spec fn is_dir_name(name: Seq<char>) -> bool {
    name.len() > 0 && name.last() == '/'
}

/// The recorded mode has an owner, group or other execute bit.
pub open spec fn wants_executable(mode: Option<u32>) -> bool {
    match mode {
        Some(m) => m & 0o111u32 != 0,
        None => false,
    }
}

/// What one entry adds to the plan, or `None` where its path is unsafe (the whole
/// extraction then aborts). Entries outside `prefix` add nothing. A directory is
/// created, and its triggers fire the first time it is created. A file has its parent
/// created, then is written with its bytes and the executable flag of its mode.
pub open spec fn entry_step(p: PlanView, e: EntryView, prefix: Seq<char>) -> Option<PlanView> {
    if !starts_with(e.name, prefix) {
        Some(p)
    } else {
        match mapped_path(e.name, prefix) {
            None => None,
            Some(c) => if is_dir_name(e.name) {
                if p.created.contains(c) {
                    Some(PlanView { actions: p.actions.push(ActionView::CreateDir(c)), created: p.created })
                } else {
                    Some(PlanView {
                        actions: p.actions.push(ActionView::CreateDir(c)) + trigger_actions(c, trigger_table()),
                        created: p.created.push(c),
                    })
                }
            } else if c.len() == 0 {
                None
            } else {
                Some(PlanView {
                    actions: p.actions.push(ActionView::CreateDir(c.drop_last())).push(
                        ActionView::WriteFile(c, e.data, wants_executable(e.unix_mode)),
                    ),
                    created: p.created,
                })
            },
        }
    }
}

/// The plan for the entries in archive order, or `None` where one is unsafe.
pub open spec fn plan_of(es: Seq<EntryView>, prefix: Seq<char>) -> Option<PlanView>
    decreases es.len(),
{
    if es.len() == 0 {
        Some(empty_plan())
    } else {
        match plan_of(es.drop_last(), prefix) {
            None => None,
            Some(p) => entry_step(p, es.last(), prefix),
        }
    }
}

/// Whether the recorded mode asks for an executable file.
pub fn is_executable_mode(mode: Option<u32>) -> (r: bool)
    ensures
        r == wants_executable(mode),
{
    match mode {
        Some(m) => m & 0o111u32 != 0,
        None => false,
    }
}

/// An extraction in progress: the actions planned so far.
pub struct Extraction {
    actions: Vec<Action>,
    created: Vec<Vec<String>>,
    triggers: Vec<Trigger>,
}

impl View for Extraction {
    type V = PlanView;

    closed spec fn view(&self) -> PlanView {
        PlanView {
            actions: actions_view(self.actions@),
            created: self.created@.map_values(|c: Vec<String>| strings_view(c@)),
        }
    }
}

impl Extraction {
    pub closed spec fn wf(&self) -> bool {
        triggers_view(self.triggers@) == trigger_table()
    }

    /// An extraction with nothing planned.
    pub fn new() -> (r: Extraction)
        ensures
            r.wf(),
            r@ == empty_plan(),
    {
        let r = Extraction { actions: Vec::new(), created: Vec::new(), triggers: scaffold_triggers() };
        assert(r@.actions =~= seq![]);
        assert(r@.created =~= seq![]);
        r
    }

    /// The actions planned so far.
    pub fn actions(&self) -> (r: &Vec<Action>)
        ensures
            actions_view(r@) == self@.actions,
    {
        &self.actions
    }

    /// Whether directory `c` was already created by a directory entry.
    fn was_created(&self, c: &Vec<String>) -> (r: bool)
        ensures
            r == self@.created.contains(strings_view(c@)),
    {
        let mut i: usize = 0;
        while i < self.created.len()
            invariant
                i <= self.created@.len(),
                forall|j: int| 0 <= j < i ==> self@.created[j] != strings_view(c@),
            decreases self.created@.len() - i,
        {
            if same_components(&self.created[i], c) {
                assert(self@.created[i as int] == strings_view(c@));
                return true;
            }
            i = i + 1;
        }
        false
    }

    /// Adds what entry `e` requires to the plan; fails, naming the entry, where its
    /// path is unsafe.
    pub fn add_entry(&mut self, e: &Entry, prefix: &str) -> (r: Result<(), ScaffoldError>)
        requires
            old(self).wf(),
        ensures
            final(self).wf(),
            entry_step(old(self)@, e@, prefix@) is Some <==> r is Ok,
            r is Ok ==> final(self)@ == entry_step(old(self)@, e@, prefix@)->Some_0,
            r is Err ==> r->Err_0 is UnsafePath && r->Err_0->UnsafePath_0@ == e.name@,
    {
        if !has_prefix(e.name.as_str(), prefix) {
            return Ok(());
        }
        let mapped = map_entry_path(e.name.as_str(), prefix);
        let c = match mapped {
            None => {
                return Err(ScaffoldError::UnsafePath(e.name.clone()));
            },
            Some(c) => c,
        };
        let ghost cv = strings_view(c@);
        let ghost before = self@;
        if ends_with_char(e.name.as_str(), '/') {
            let fresh = !self.was_created(&c);
            let dir = copy_components(&c);
            self.actions.push(Action::CreateDir(dir));
            assert(self@.actions =~= before.actions.push(ActionView::CreateDir(cv)));
            if fresh {
                let mut extra = side_effects(&c, &self.triggers);
                let ghost mid = self@.actions;
                self.actions.append(&mut extra);
                assert(self@.actions =~= mid + trigger_actions(cv, trigger_table()));
                self.created.push(c);
                assert(self@.created =~= before.created.push(cv));
            }
            Ok(())
        } else if c.len() == 0 {
            Err(ScaffoldError::UnsafePath(e.name.clone()))
        } else {
            let mut parent = copy_components(&c);
            parent.pop();
            assert(strings_view(parent@) =~= cv.drop_last());
            self.actions.push(Action::CreateDir(parent));
            let x = is_executable_mode(e.unix_mode);
            self.actions.push(Action::WriteFile(c, e.data.clone(), x));
            assert(self@.actions =~= before.actions.push(ActionView::CreateDir(cv.drop_last())).push(
                ActionView::WriteFile(cv, e.data@, wants_executable(e.unix_mode)),
            ));
            Ok(())
        }
    }

    /// The planned actions.
    pub fn into_actions(self) -> (r: Vec<Action>)
        ensures
            actions_view(r@) == self@.actions,
    {
        self.actions
    }
}

/// `es[k]` is the first entry whose path is unsafe.
pub open spec fn first_unsafe(es: Seq<EntryView>, prefix: Seq<char>, k: int) -> bool {
    &&& 0 <= k < es.len()
    &&& plan_of(es.subrange(0, k), prefix) is Some
    &&& entry_step(plan_of(es.subrange(0, k), prefix)->Some_0, es[k], prefix) is None
}

/// Plans the extraction of the entries under `prefix`, in archive order; fails,
/// naming the first entry whose path is unsafe, before anything is written.
pub fn plan_extraction(entries: &Vec<Entry>, prefix: &str) -> (r: Result<Vec<Action>, ScaffoldError>)
    ensures
        r is Ok <==> plan_of(entries_view(entries@), prefix@) is Some,
        r is Ok ==> actions_view(r->Ok_0@) == plan_of(entries_view(entries@), prefix@)->Some_0.actions,
        r is Err ==> r->Err_0 is UnsafePath && exists|k: int|
            first_unsafe(entries_view(entries@), prefix@, k)
                && r->Err_0->UnsafePath_0@ == #[trigger] entries@[k].name@,
{
    let ghost es = entries_view(entries@);
    let mut ex = Extraction::new();
    let mut i: usize = 0;
    assert(es.subrange(0, 0) =~= seq![]);
    while i < entries.len()
        invariant
            es == entries_view(entries@),
            i <= entries@.len(),
            ex.wf(),
            plan_of(es.subrange(0, i as int), prefix@) == Some(ex@),
        decreases entries@.len() - i,
    {
        let ghost before = ex@;
        assert(es.subrange(0, i + 1).drop_last() =~= es.subrange(0, i as int));
        match ex.add_entry(&entries[i], prefix) {
            Ok(()) => {},
            Err(e) => {
                assert(first_unsafe(es, prefix@, i as int));
                assert(plan_of(es.subrange(0, i + 1), prefix@) is None);
                proof { lemma_plan_none_extends(es, prefix@, i + 1); }
                assert(es.subrange(0, es.len() as int) =~= es);
                return Err(e);
            },
        }
        i = i + 1;
    }
    assert(es.subrange(0, es.len() as int) =~= es);
    Ok(ex.into_actions())
}

/// Once a prefix of the entries fails to plan, every longer prefix fails too.
pub proof fn lemma_plan_none_extends(es: Seq<EntryView>, prefix: Seq<char>, k: int)
    requires
        0 <= k <= es.len(),
        plan_of(es.subrange(0, k), prefix) is None,
    ensures
        plan_of(es, prefix) is None,
    decreases es.len() - k,
{
    if k < es.len() {
        assert(es.subrange(0, k + 1).drop_last() =~= es.subrange(0, k));
        lemma_plan_none_extends(es, prefix, k + 1);
    } else {
        assert(es.subrange(0, k) =~= es);
    }
}

/// An entry outside the prefix changes nothing: no directory or file is planned for it.
pub proof fn lemma_outside_prefix_adds_nothing(es: Seq<EntryView>, e: EntryView, prefix: Seq<char>)
    requires
        !starts_with(e.name, prefix),
    ensures
        plan_of(es.push(e), prefix) == plan_of(es, prefix),
{
    assert(es.push(e).drop_last() =~= es);
}

/// A file entry that is extracted is written last, at its mapped path, with exactly
/// its decompressed bytes, and marked executable exactly when its mode has an
/// execute bit.
pub proof fn lemma_file_written_with_its_bytes(es: Seq<EntryView>, e: EntryView, prefix: Seq<char>)
    requires
        starts_with(e.name, prefix),
        !is_dir_name(e.name),
        plan_of(es.push(e), prefix) is Some,
    ensures
        mapped_path(e.name, prefix) is Some,
        plan_of(es.push(e), prefix)->Some_0.actions.last() == ActionView::WriteFile(
            mapped_path(e.name, prefix)->Some_0,
            e.data,
            wants_executable(e.unix_mode),
        ),
{
    assert(es.push(e).drop_last() =~= es);
}

/// A mode asks for an executable file exactly when its owner, group or other
/// execute bit is set.
pub proof fn lemma_executable_bits(m: u32)
    ensures
        wants_executable(Some(m)) <==> (m & 0o100u32 != 0 || m & 0o010u32 != 0 || m & 0o001u32 != 0),
{
    assert((m & 0o111u32 != 0) <==> (m & 0o100u32 != 0 || m & 0o010u32 != 0 || m & 0o001u32 != 0))
        by (bit_vector);
}

/// A directory entry that maps to a directory already created adds only its creation:
/// its triggers never write their files a second time.
pub proof fn lemma_directory_fires_once(es: Seq<EntryView>, d1: EntryView, d2: EntryView, prefix: Seq<char>)
    requires
        starts_with(d1.name, prefix),
        starts_with(d2.name, prefix),
        is_dir_name(d1.name),
        is_dir_name(d2.name),
        mapped_path(d1.name, prefix) is Some,
        mapped_path(d1.name, prefix) == mapped_path(d2.name, prefix),
        plan_of(es.push(d1), prefix) is Some,
    ensures
        plan_of(es.push(d1).push(d2), prefix) == Some(PlanView {
            actions: plan_of(es.push(d1), prefix)->Some_0.actions.push(
                ActionView::CreateDir(mapped_path(d2.name, prefix)->Some_0),
            ),
            created: plan_of(es.push(d1), prefix)->Some_0.created,
        }),
{
    let c = mapped_path(d1.name, prefix)->Some_0;
    assert(es.push(d1).drop_last() =~= es);
    assert(es.push(d1).push(d2).drop_last() =~= es.push(d1));
    let p0 = plan_of(es, prefix)->Some_0;
    let p1 = plan_of(es.push(d1), prefix)->Some_0;
    if !p0.created.contains(c) {
        assert(p1.created.last() == c);
        assert(p1.created.contains(c));
    }
}

/// A path whose text after the prefix climbs out with `..` aborts the extraction.
pub proof fn lemma_traversal_aborts(p: PlanView, e: EntryView, prefix: Seq<char>, k: int)
    requires
        starts_with(e.name, prefix),
        0 <= k < split_slash(e.name.subrange(prefix.len() as int, e.name.len() as int)).len(),
        is_parent_piece(split_slash(e.name.subrange(prefix.len() as int, e.name.len() as int))[k]),
    ensures
        entry_step(p, e, prefix) is None,
{
}

proof fn lemma_trigger_paths_safe(c: Seq<Seq<char>>, table: Seq<TriggerView>)
    requires
        all_safe(c),
        forall|i: int| 0 <= i < table.len() ==> safe_component(#[trigger] table[i].file_name),
    ensures
        forall|i: int| 0 <= i < trigger_actions(c, table).len()
            ==> all_safe(#[trigger] trigger_actions(c, table)[i].path()),
    decreases table.len(),
{
    if table.len() > 0 {
        let rest = table.drop_last();
        assert forall|i: int| 0 <= i < rest.len() implies safe_component(#[trigger] rest[i].file_name) by {
            assert(rest[i] == table[i]);
        }
        lemma_trigger_paths_safe(c, rest);
        let t = table.last();
        assert(safe_component(table[table.len() - 1].file_name));
        let p = c.push(t.file_name);
        assert forall|j: int| 0 <= j < p.len() implies safe_component(#[trigger] p[j]) by {
            if j < c.len() {
                assert(p[j] == c[j]);
            }
        }
        let earlier = trigger_actions(c, rest);
        let all = trigger_actions(c, table);
        assert forall|i: int| 0 <= i < all.len() implies all_safe(#[trigger] all[i].path()) by {
            if i < earlier.len() {
                assert(all[i] == earlier[i]);
            } else {
                assert(all[i].path() == p);
            }
        }
    }
}

proof fn lemma_table_names_safe()
    ensures
        forall|i: int| 0 <= i < trigger_table().len() ==> safe_component(#[trigger] trigger_table()[i].file_name),
{
    reveal_strlit(".gitkeep");
    reveal_strlit(".gitignore");
    assert(".gitkeep"@.len() == 8);
    assert(".gitignore"@.len() == 10);
    assert(".gitkeep"@ != seq!['.', '.']);
    assert(".gitignore"@ != seq!['.', '.']);
    assert(".gitkeep"@ != seq!['.']);
    assert(".gitignore"@ != seq!['.']);
    assert(!".gitkeep"@.contains('/'));
    assert(!".gitignore"@.contains('/'));
}

/// Every path that a plan creates or writes consists of safe components, so it stays
/// inside the output root.
pub proof fn lemma_plan_paths_safe(es: Seq<EntryView>, prefix: Seq<char>)
    requires
        plan_of(es, prefix) is Some,
    ensures
        forall|i: int| 0 <= i < plan_of(es, prefix)->Some_0.actions.len()
            ==> all_safe(#[trigger] plan_of(es, prefix)->Some_0.actions[i].path()),
    decreases es.len(),
{
    if es.len() > 0 {
        let rest = es.drop_last();
        let e = es.last();
        lemma_plan_paths_safe(rest, prefix);
        let p = plan_of(rest, prefix)->Some_0;
        let q = plan_of(es, prefix)->Some_0;
        if starts_with(e.name, prefix) {
            lemma_mapped_path_safe(e.name, prefix);
            let c = mapped_path(e.name, prefix)->Some_0;
            if is_dir_name(e.name) {
                lemma_table_names_safe();
                lemma_trigger_paths_safe(c, trigger_table());
                let base = p.actions.push(ActionView::CreateDir(c));
                assert forall|i: int| 0 <= i < q.actions.len() implies all_safe(#[trigger] q.actions[i].path()) by {
                    if i < p.actions.len() {
                        assert(q.actions[i] == p.actions[i]);
                    } else if i == p.actions.len() {
                        assert(q.actions[i] == ActionView::CreateDir(c));
                    } else {
                        let extra = trigger_actions(c, trigger_table());
                        assert(q.actions[i] == extra[i - base.len()]);
                    }
                }
            } else {
                let parent = c.drop_last();
                assert forall|j: int| 0 <= j < parent.len() implies safe_component(#[trigger] parent[j]) by {
                    assert(parent[j] == c[j]);
                }
                assert forall|i: int| 0 <= i < q.actions.len() implies all_safe(#[trigger] q.actions[i].path()) by {
                    if i < p.actions.len() {
                        assert(q.actions[i] == p.actions[i]);
                    }
                }
            }
        }
    }
}

/// Planning only appends: the plan of a prefix of the entries begins the plan of all.
pub proof fn lemma_plan_grows(es: Seq<EntryView>, prefix: Seq<char>, j: int)
    requires
        plan_of(es, prefix) is Some,
        0 <= j <= es.len(),
    ensures
        plan_of(es.subrange(0, j), prefix) is Some,
        plan_of(es.subrange(0, j), prefix)->Some_0.actions.len() <= plan_of(es, prefix)->Some_0.actions.len(),
        plan_of(es, prefix)->Some_0.actions.subrange(0, plan_of(es.subrange(0, j), prefix)->Some_0.actions.len() as int)
            == plan_of(es.subrange(0, j), prefix)->Some_0.actions,
    decreases es.len() - j,
{
    if j == es.len() {
        assert(es.subrange(0, j) =~= es);
        let a = plan_of(es, prefix)->Some_0.actions;
        assert(a.subrange(0, a.len() as int) =~= a);
    } else {
        let longer = es.subrange(0, j + 1);
        lemma_plan_grows(es, prefix, j + 1);
        assert(longer.drop_last() =~= es.subrange(0, j));
        let p = plan_of(es.subrange(0, j), prefix)->Some_0;
        let q = plan_of(longer, prefix)->Some_0;
        let all = plan_of(es, prefix)->Some_0.actions;
        assert(q.actions.subrange(0, p.actions.len() as int) =~= p.actions);
        assert(all.subrange(0, p.actions.len() as int) =~= q.actions.subrange(0, p.actions.len() as int));
    }
}

/// In a plan that succeeds, every file entry under the prefix is written at its mapped
/// path with exactly its decompressed bytes and the executable flag of its mode.
pub proof fn lemma_plan_writes_every_file(es: Seq<EntryView>, prefix: Seq<char>, k: int)
    requires
        plan_of(es, prefix) is Some,
        0 <= k < es.len(),
        starts_with(es[k].name, prefix),
        !is_dir_name(es[k].name),
    ensures
        mapped_path(es[k].name, prefix) is Some,
        plan_of(es, prefix)->Some_0.actions.contains(
            ActionView::WriteFile(mapped_path(es[k].name, prefix)->Some_0, es[k].data, wants_executable(es[k].unix_mode)),
        ),
{
    lemma_plan_grows(es, prefix, k + 1);
    let upto = es.subrange(0, k + 1);
    assert(es.subrange(0, k).push(es[k]) =~= upto);
    lemma_file_written_with_its_bytes(es.subrange(0, k), es[k], prefix);
    let q = plan_of(upto, prefix)->Some_0.actions;
    let all = plan_of(es, prefix)->Some_0.actions;
    assert(all[q.len() - 1] == q[q.len() - 1]);
}

} // verus!
