use vstd::prelude::*;
use crate::action::{Action, ActionView, actions_view};
use crate::paths::{strings_view, copy_components};

verus! {

/// A scaffold trigger: when a directory whose trailing components are `suffix` is
/// created, a file `file_name` holding `contents` is written inside it.
pub struct Trigger {
    pub suffix: Vec<String>,
    pub file_name: String,
    pub contents: Vec<u8>,
}

pub struct TriggerView {
    pub suffix: Seq<Seq<char>>,
    pub file_name: Seq<char>,
    pub contents: Seq<u8>,
}

impl View for Trigger {
    type V = TriggerView;

    open spec fn view(&self) -> TriggerView {
        TriggerView { suffix: strings_view(self.suffix@), file_name: self.file_name@, contents: self.contents@ }
    }
}

pub open spec fn triggers_view(v: Seq<Trigger>) -> Seq<TriggerView> {
    v.map_values(|t: Trigger| t@)
}

/// The single line of the project's ignore file: `.DS_Store` and a newline.
pub open spec fn ignore_file_contents() -> Seq<u8> {
    seq![46u8, 68u8, 83u8, 95u8, 83u8, 116u8, 111u8, 114u8, 101u8, 10u8]
}

/// The fixed trigger set: empty `.gitkeep` markers in the project's asset
/// directories, and the ignore file at the project root.
pub open spec fn trigger_table() -> Seq<TriggerView> {
    seq![
        TriggerView { suffix: seq!["mygame"@, "data"@], file_name: ".gitkeep"@, contents: seq![] },
        TriggerView { suffix: seq!["mygame"@, "fonts"@], file_name: ".gitkeep"@, contents: seq![] },
        TriggerView { suffix: seq!["mygame"@, "sounds"@], file_name: ".gitkeep"@, contents: seq![] },
        TriggerView { suffix: seq!["mygame"@], file_name: ".gitignore"@, contents: ignore_file_contents() },
    ]
}

/// The trailing components of `path` are `suffix`.
pub open spec fn ends_with_components(path: Seq<Seq<char>>, suffix: Seq<Seq<char>>) -> bool {
    suffix.len() <= path.len() && path.subrange(path.len() - suffix.len(), path.len() as int) == suffix
}

/// The files that the triggers of `table` write when directory `dir` is created, in
/// table order.
pub open spec fn trigger_actions(dir: Seq<Seq<char>>, table: Seq<TriggerView>) -> Seq<ActionView>
    decreases table.len(),
{
    if table.len() == 0 {
        seq![]
    } else {
        let earlier = trigger_actions(dir, table.drop_last());
        let t = table.last();
        if ends_with_components(dir, t.suffix) {
            earlier.push(ActionView::WriteFile(dir.push(t.file_name), t.contents, false))
        } else {
            earlier
        }
    }
}

fn components2(a: &str, b: &str) -> (r: Vec<String>)
    ensures
        strings_view(r@) == seq![a@, b@],
{
    let r = vec![String::from_str(a), String::from_str(b)];
    assert(strings_view(r@) =~= seq![a@, b@]);
    r
}

/// The fixed trigger set as data.
pub fn scaffold_triggers() -> (r: Vec<Trigger>)
    ensures
        triggers_view(r@) == trigger_table(),
{
    let mut r: Vec<Trigger> = Vec::new();
    r.push(Trigger { suffix: components2("mygame", "data"), file_name: String::from_str(".gitkeep"), contents: Vec::new() });
    r.push(Trigger { suffix: components2("mygame", "fonts"), file_name: String::from_str(".gitkeep"), contents: Vec::new() });
    r.push(Trigger { suffix: components2("mygame", "sounds"), file_name: String::from_str(".gitkeep"), contents: Vec::new() });
    let root = vec![String::from_str("mygame")];
    assert(strings_view(root@) =~= seq!["mygame"@]);
    let ignore: Vec<u8> = vec![46u8, 68u8, 83u8, 95u8, 83u8, 116u8, 111u8, 114u8, 101u8, 10u8];
    assert(ignore@ =~= ignore_file_contents());
    r.push(Trigger { suffix: root, file_name: String::from_str(".gitignore"), contents: ignore });
    assert(r@[0]@.contents =~= seq![]);
    assert(r@[1]@.contents =~= seq![]);
    assert(r@[2]@.contents =~= seq![]);
    assert(triggers_view(r@) =~= trigger_table());
    r
}

/// Whether the trailing components of `path` are `suffix`.
pub fn path_ends_with(path: &Vec<String>, suffix: &Vec<String>) -> (r: bool)
    ensures
        r == ends_with_components(strings_view(path@), strings_view(suffix@)),
{
    let n = path.len();
    let k = suffix.len();
    if k > n {
        return false;
    }
    let ghost p = strings_view(path@);
    let ghost q = strings_view(suffix@);
    let mut i: usize = 0;
    while i < k
        invariant
            p == strings_view(path@),
            q == strings_view(suffix@),
            n == path@.len(),
            k == suffix@.len(),
            k <= n,
            i <= k,
            forall|j: int| 0 <= j < i ==> p[n - k + j] == q[j],
        decreases k - i,
    {
        if path[n - k + i] != suffix[i] {
            assert(p.subrange(n - k, n as int)[i as int] != q[i as int]);
            return false;
        }
        i = i + 1;
    }
    assert(p.subrange(n - k, n as int) =~= q);
    true
}

/// The files that the triggers write when directory `dir` is created.
pub fn side_effects(dir: &Vec<String>, triggers: &Vec<Trigger>) -> (r: Vec<Action>)
    ensures
        actions_view(r@) == trigger_actions(strings_view(dir@), triggers_view(triggers@)),
{
    let ghost d = strings_view(dir@);
    let ghost tbl = triggers_view(triggers@);
    let mut r: Vec<Action> = Vec::new();
    let mut i: usize = 0;
    while i < triggers.len()
        invariant
            d == strings_view(dir@),
            tbl == triggers_view(triggers@),
            i <= triggers@.len(),
            actions_view(r@) == trigger_actions(d, tbl.subrange(0, i as int)),
        decreases triggers@.len() - i,
    {
        let t = &triggers[i];
        assert(tbl.subrange(0, i + 1).drop_last() =~= tbl.subrange(0, i as int));
        if path_ends_with(dir, &t.suffix) {
            let mut p = copy_components(dir);
            p.push(t.file_name.clone());
            assert(strings_view(p@) =~= d.push(t.file_name@));
            let ghost before = r@;
            r.push(Action::WriteFile(p, t.contents.clone(), false));
            assert(actions_view(r@) =~= actions_view(before).push(r@.last()@));
        }
        i = i + 1;
    }
    assert(tbl.subrange(0, tbl.len() as int) =~= tbl);
    r
}

} // verus!
