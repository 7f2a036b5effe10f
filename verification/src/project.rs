//! The data model: a registered project with its ordered build-command
//! selection and its propagation targets, and every mutation the interface
//! performs on it.  The registry on disk is a whole-document store: callers
//! load the full list, change one project, and save the full list back.

use vstd::prelude::*;
use crate::text::{str_eq, trim_seq, trim_str, vec_contains_string};

verus! {

/// A propagation target: a consumer directory that receives the build output.
/// Inactive entries are retained and merely skipped by propagation.
#[derive(Debug, Clone, PartialEq)]
pub struct TargetPath {
    pub id: String,
    pub path: String,
    pub is_active: bool,
}

pub struct TargetPathView {
    pub id: Seq<char>,
    pub path: Seq<char>,
    pub is_active: bool,
}

impl View for TargetPath {
    type V = TargetPathView;

    open spec fn view(&self) -> TargetPathView {
        TargetPathView { id: self.id@, path: self.path@, is_active: self.is_active }
    }
}

impl DeepView for TargetPath {
    type V = TargetPathView;

    open spec fn deep_view(&self) -> TargetPathView {
        self.view()
    }
}

/// A registered library project: where it lives, which build commands its
/// manifest offers, which of them the user selected (in execution order), and
/// where its build output propagates to.
#[derive(Debug, Clone, PartialEq)]
pub struct Project {
    pub id: String,
    pub name: String,
    pub path: String,
    pub build_commands: Vec<String>,
    pub selected_build_commands: Vec<String>,
    pub target_paths: Vec<TargetPath>,
}

pub struct ProjectView {
    pub id: Seq<char>,
    pub name: Seq<char>,
    pub path: Seq<char>,
    pub build_commands: Seq<Seq<char>>,
    pub selected_build_commands: Seq<Seq<char>>,
    pub target_paths: Seq<TargetPathView>,
}

impl View for Project {
    type V = ProjectView;

    open spec fn view(&self) -> ProjectView {
        ProjectView {
            id: self.id@,
            name: self.name@,
            path: self.path@,
            build_commands: self.build_commands.deep_view(),
            selected_build_commands: self.selected_build_commands.deep_view(),
            target_paths: self.target_paths.deep_view(),
        }
    }
}

/// Relies on `uuid::Uuid::new_v4` rendered through its `Display` form: a
/// freshly generated random identifier, always 36 characters in the
/// hyphenated layout.  Nothing else can be promised of a random value.
#[verifier::external_body]
fn fresh_id() -> (r: String)
    ensures
        r@.len() == 36,
{
    uuid::Uuid::new_v4().to_string()
}

/// Makes a new project record: fresh identifier, the given name and path,
/// the discovered build commands, no selection and no targets yet.
pub fn create_project(name: String, path: String, build_commands: Vec<String>) -> (p: Project)
    ensures
        p@.id.len() == 36,
        p@.name == name@,
        p@.path == path@,
        p@.build_commands == build_commands.deep_view(),
        p@.selected_build_commands == Seq::<Seq<char>>::empty(),
        p@.target_paths == Seq::<TargetPathView>::empty(),
{
    let p = Project {
        id: fresh_id(),
        name,
        path,
        build_commands,
        selected_build_commands: Vec::new(),
        target_paths: Vec::new(),
    };
    proof {
        assert(p.selected_build_commands.deep_view() =~= Seq::<Seq<char>>::empty());
        assert(p.target_paths.deep_view() =~= Seq::<TargetPathView>::empty());
    }
    p
}

// ---------------------------------------------------------------------------
// Refreshing the selection against a re-read command set
// ---------------------------------------------------------------------------

/// The selections that survive a refresh: those still present in the freshly
/// read command set, kept in their existing relative order.
pub open spec fn keep_known(selected: Seq<Seq<char>>, known: Seq<Seq<char>>) -> Seq<Seq<char>>
    decreases selected.len(),
{
    if selected.len() == 0 {
        Seq::empty()
    } else {
        let rest = keep_known(selected.drop_last(), known);
        if known.contains(selected.last()) {
            rest.push(selected.last())
        } else {
            rest
        }
    }
}

/// A command is kept by a refresh exactly when it was selected and is still
/// offered; nothing else ever appears in the refreshed selection.
pub proof fn lemma_keep_known_membership(
    selected: Seq<Seq<char>>,
    known: Seq<Seq<char>>,
    c: Seq<char>,
)
    ensures
        keep_known(selected, known).contains(c) <==> (selected.contains(c) && known.contains(c)),
    decreases selected.len(),
{
    if selected.len() > 0 {
        lemma_keep_known_membership(selected.drop_last(), known, c);
        let rest = keep_known(selected.drop_last(), known);
        let out = keep_known(selected, known);
        if out.contains(c) {
            let i = choose|i: int| 0 <= i < out.len() && out[i] == c;
            if known.contains(selected.last()) && i == out.len() - 1 {
                assert(selected[selected.len() - 1] == c);
            } else {
                assert(rest[i] == c);
                assert(rest.contains(c));
                let j = choose|j: int| 0 <= j < selected.drop_last().len()
                    && selected.drop_last()[j] == c;
                assert(selected[j] == c);
            }
        }
        if selected.contains(c) && known.contains(c) {
            let i = choose|i: int| 0 <= i < selected.len() && selected[i] == c;
            if i == selected.len() - 1 {
                assert(out[out.len() - 1] == c);
            } else {
                assert(selected.drop_last()[i] == c);
                assert(selected.drop_last().contains(c));
                assert(rest.contains(c));
                let j = choose|j: int| 0 <= j < rest.len() && rest[j] == c;
                assert(out[j] == c);
            }
        }
    }
}

/// Every selected command is still offered by the manifest's command set:
/// the invariant a refresh re-establishes, and the state a build assumes.
pub open spec fn selection_coherent(p: ProjectView) -> bool {
    forall|i: int|
        0 <= i < p.selected_build_commands.len() ==> p.build_commands.contains(
            #[trigger] p.selected_build_commands[i],
        )
}

/// `m` lists, in strictly increasing order, a position in `b` for each
/// element of `a` holding that element: `a` appears in `b` in order.
pub open spec fn embeds_in(a: Seq<Seq<char>>, b: Seq<Seq<char>>, m: Seq<int>) -> bool {
    m.len() == a.len() && (forall|i: int| 0 <= i < m.len() ==> 0 <= #[trigger] m[i] < b.len()
        && b[m[i]] == a[i]) && (forall|i: int, j: int| 0 <= i < j < m.len() ==> m[i] < m[j])
}

/// A refresh preserves the relative order of the surviving selections: the
/// refreshed list embeds into the old one in order.
pub proof fn lemma_refresh_preserves_order(selected: Seq<Seq<char>>, known: Seq<Seq<char>>)
    ensures
        exists|m: Seq<int>| embeds_in(keep_known(selected, known), selected, m),
    decreases selected.len(),
{
    if selected.len() == 0 {
        let m = Seq::<int>::empty();
        assert(embeds_in(keep_known(selected, known), selected, m));
    } else {
        lemma_refresh_preserves_order(selected.drop_last(), known);
        let m0 = choose|m0: Seq<int>|
            embeds_in(keep_known(selected.drop_last(), known), selected.drop_last(), m0);
        if known.contains(selected.last()) {
            let m1 = m0.push(selected.len() - 1);
            assert(embeds_in(keep_known(selected, known), selected, m1)) by {
                let kept = keep_known(selected, known);
                assert(kept =~= keep_known(selected.drop_last(), known).push(selected.last()));
                assert forall|i: int| 0 <= i < m1.len() implies 0 <= #[trigger] m1[i]
                    < selected.len() && selected[m1[i]] == kept[i] by {
                    if i < m0.len() {
                        assert(m1[i] == m0[i]);
                        assert(selected.drop_last()[m0[i]] == selected[m0[i]]);
                    }
                }
            }
        } else {
            assert(embeds_in(keep_known(selected, known), selected, m0)) by {
                let kept = keep_known(selected, known);
                assert forall|i: int| 0 <= i < m0.len() implies 0 <= #[trigger] m0[i]
                    < selected.len() && selected[m0[i]] == kept[i] by {
                    assert(selected.drop_last()[m0[i]] == selected[m0[i]]);
                }
            }
        }
    }
}

proof fn lemma_keep_known_stable(s: Seq<Seq<char>>, known: Seq<Seq<char>>)
    requires
        forall|i: int| 0 <= i < s.len() ==> known.contains(#[trigger] s[i]),
    ensures
        keep_known(s, known) == s,
    decreases s.len(),
{
    if s.len() > 0 {
        assert forall|i: int| 0 <= i < s.drop_last().len() implies known.contains(
            #[trigger] s.drop_last()[i],
        ) by {
            assert(s.drop_last()[i] == s[i]);
        }
        lemma_keep_known_stable(s.drop_last(), known);
        assert(known.contains(s.last()));
        assert(keep_known(s, known) =~= s.drop_last().push(s.last()));
        assert(s.drop_last().push(s.last()) =~= s);
    }
}

/// Refreshing is idempotent: running it twice against the same command set
/// yields the same selection as running it once.
pub proof fn lemma_refresh_idempotent(selected: Seq<Seq<char>>, known: Seq<Seq<char>>)
    ensures
        keep_known(keep_known(selected, known), known) == keep_known(selected, known),
{
    let kept = keep_known(selected, known);
    assert forall|i: int| 0 <= i < kept.len() implies known.contains(#[trigger] kept[i]) by {
        assert(kept.contains(kept[i]));
        lemma_keep_known_membership(selected, known, kept[i]);
    }
    lemma_keep_known_stable(kept, known);
}

/// Re-reads the command set: replaces `build_commands` with the freshly
/// parsed list and prunes every selection that is no longer offered,
/// preserving the relative order of the remainder.
pub fn refresh_build_commands(project: &mut Project, commands: Vec<String>)
    ensures
        final(project)@.build_commands == commands.deep_view(),
        final(project)@.selected_build_commands == keep_known(
            old(project)@.selected_build_commands,
            commands.deep_view(),
        ),
        selection_coherent(final(project)@),
        final(project)@.id == old(project)@.id,
        final(project)@.name == old(project)@.name,
        final(project)@.path == old(project)@.path,
        final(project)@.target_paths == old(project)@.target_paths,
{
    let ghost old_sel = project.selected_build_commands.deep_view();
    let ghost known = commands.deep_view();
    let mut kept: Vec<String> = Vec::new();
    let mut i: usize = 0;
    proof {
        assert(old_sel.take(0) =~= Seq::<Seq<char>>::empty());
        assert(kept.deep_view() =~= keep_known(old_sel.take(0), known));
    }
    while i < project.selected_build_commands.len()
        invariant
            old_sel == project.selected_build_commands.deep_view(),
            known == commands.deep_view(),
            i <= old_sel.len(),
            old_sel.len() == project.selected_build_commands@.len(),
            kept.deep_view() == keep_known(old_sel.take(i as int), known),
            project.id == old(project).id,
            project.name == old(project).name,
            project.path == old(project).path,
            project.build_commands == old(project).build_commands,
            project.selected_build_commands == old(project).selected_build_commands,
            project.target_paths == old(project).target_paths,
        decreases old_sel.len() - i,
    {
        let ghost prefix = old_sel.take(i as int);
        let ghost prefix1 = old_sel.take(i + 1);
        proof {
            assert(prefix1.drop_last() =~= prefix);
            assert(prefix1.last() == old_sel[i as int]);
        }
        let cmd = &project.selected_build_commands[i];
        if vec_contains_string(&commands, cmd.as_str()) {
            let ghost kept0 = kept.deep_view();
            kept.push(cmd.clone());
            proof {
                assert(kept.deep_view() =~= kept0.push(old_sel[i as int]));
            }
        }
        i = i + 1;
    }
    proof {
        assert(old_sel.take(old_sel.len() as int) =~= old_sel);
    }
    project.selected_build_commands = kept;
    project.build_commands = commands;
    proof {
        let now = project@;
        assert forall|i: int| 0 <= i < now.selected_build_commands.len()
            implies now.build_commands.contains(#[trigger] now.selected_build_commands[i]) by {
            let c = now.selected_build_commands[i];
            assert(keep_known(old_sel, known).contains(c));
            lemma_keep_known_membership(old_sel, known, c);
        }
    }
}

// ---------------------------------------------------------------------------
// Curating the ordered selection
// ---------------------------------------------------------------------------

/// The selection without any occurrence of `cmd`.
pub open spec fn without_command(selected: Seq<Seq<char>>, cmd: Seq<char>) -> Seq<Seq<char>>
    decreases selected.len(),
{
    if selected.len() == 0 {
        Seq::empty()
    } else {
        let rest = without_command(selected.drop_last(), cmd);
        if selected.last() == cmd {
            rest
        } else {
            rest.push(selected.last())
        }
    }
}

/// Adds `cmd` to the end of the selection if absent, and removes it entirely
/// if present, as the command checkboxes do.
pub fn toggle_command_selection(project: &mut Project, cmd: &str)
    ensures
        old(project)@.selected_build_commands.contains(cmd@) ==> final(project)@.selected_build_commands == without_command(
            old(project)@.selected_build_commands,
            cmd@,
        ),
        !old(project)@.selected_build_commands.contains(cmd@) ==> final(project)@.selected_build_commands == old(project)@.selected_build_commands.push(cmd@),
        final(project)@.build_commands == old(project)@.build_commands,
        final(project)@.id == old(project)@.id,
        final(project)@.name == old(project)@.name,
        final(project)@.path == old(project)@.path,
        final(project)@.target_paths == old(project)@.target_paths,
{
    let ghost old_sel = project.selected_build_commands.deep_view();
    if vec_contains_string(&project.selected_build_commands, cmd) {
        let mut kept: Vec<String> = Vec::new();
        let mut i: usize = 0;
        proof {
            assert(old_sel.take(0) =~= Seq::<Seq<char>>::empty());
            assert(kept.deep_view() =~= without_command(old_sel.take(0), cmd@));
        }
        while i < project.selected_build_commands.len()
            invariant
                old_sel == project.selected_build_commands.deep_view(),
                i <= old_sel.len(),
                old_sel.len() == project.selected_build_commands@.len(),
                kept.deep_view() == without_command(old_sel.take(i as int), cmd@),
                project.id == old(project).id,
                project.name == old(project).name,
                project.path == old(project).path,
                project.build_commands == old(project).build_commands,
                project.selected_build_commands == old(project).selected_build_commands,
                project.target_paths == old(project).target_paths,
            decreases old_sel.len() - i,
        {
            let ghost prefix = old_sel.take(i as int);
            let ghost prefix1 = old_sel.take(i + 1);
            proof {
                assert(prefix1.drop_last() =~= prefix);
                assert(prefix1.last() == old_sel[i as int]);
            }
            let entry = &project.selected_build_commands[i];
            if !str_eq(entry.as_str(), cmd) {
                let ghost kept0 = kept.deep_view();
                kept.push(entry.clone());
                proof {
                    assert(kept.deep_view() =~= kept0.push(old_sel[i as int]));
                }
            }
            i = i + 1;
        }
        proof {
            assert(old_sel.take(old_sel.len() as int) =~= old_sel);
        }
        project.selected_build_commands = kept;
    } else {
        let ghost sel0 = project.selected_build_commands.deep_view();
        project.selected_build_commands.push(cmd.to_owned());
        proof {
            assert(project.selected_build_commands.deep_view() =~= sel0.push(cmd@));
        }
    }
}

/// Swaps the selected command at `index` with its predecessor.
pub fn move_command_up(project: &mut Project, index: usize)
    requires
        0 < index < old(project)@.selected_build_commands.len(),
    ensures
        final(project)@.selected_build_commands == old(project)@.selected_build_commands.update(index - 1, old(project)@.selected_build_commands[
            index as int
        ]).update(index as int, old(project)@.selected_build_commands[index - 1]),
        final(project)@.build_commands == old(project)@.build_commands,
        final(project)@.id == old(project)@.id,
        final(project)@.name == old(project)@.name,
        final(project)@.path == old(project)@.path,
        final(project)@.target_paths == old(project)@.target_paths,
{
    let ghost sel0 = project.selected_build_commands.deep_view();
    let a: String = project.selected_build_commands[index - 1].clone();
    let b: String = project.selected_build_commands[index].clone();
    project.selected_build_commands[index - 1] = b;
    project.selected_build_commands[index] = a;
    proof {
        assert(project.selected_build_commands.deep_view() =~= sel0.update(
            index - 1,
            sel0[index as int],
        ).update(index as int, sel0[index - 1]));
    }
}

/// Swaps the selected command at `index` with its successor.
pub fn move_command_down(project: &mut Project, index: usize)
    requires
        old(project)@.selected_build_commands.len() > 0,
        index < old(project)@.selected_build_commands.len() - 1,
    ensures
        final(project)@.selected_build_commands == old(project)@.selected_build_commands.update(index as int, old(project)@.selected_build_commands[
            index + 1
        ]).update(index + 1, old(project)@.selected_build_commands[index as int]),
        final(project)@.build_commands == old(project)@.build_commands,
        final(project)@.id == old(project)@.id,
        final(project)@.name == old(project)@.name,
        final(project)@.path == old(project)@.path,
        final(project)@.target_paths == old(project)@.target_paths,
{
    let ghost sel0 = project.selected_build_commands.deep_view();
    let n = project.selected_build_commands.len();
    proof {
        assert(index + 1 < n);
    }
    let a: String = project.selected_build_commands[index].clone();
    let b: String = project.selected_build_commands[index + 1].clone();
    project.selected_build_commands[index] = b;
    project.selected_build_commands[index + 1] = a;
    proof {
        assert(project.selected_build_commands.deep_view() =~= sel0.update(
            index as int,
            sel0[index + 1],
        ).update(index + 1, sel0[index as int]));
    }
}

// ---------------------------------------------------------------------------
// Target paths
// ---------------------------------------------------------------------------

/// Appends a new active target with a fresh identifier and the trimmed path.
pub fn add_target_path(project: &mut Project, path: &str)
    ensures
        final(project)@.target_paths.len() == old(project)@.target_paths.len() + 1,
        final(project)@.target_paths.take(old(project)@.target_paths.len() as int) == old(project)@.target_paths,
        final(project)@.target_paths.last().path == trim_seq(path@),
        final(project)@.target_paths.last().is_active,
        final(project)@.target_paths.last().id.len() == 36,
        final(project)@.selected_build_commands == old(project)@.selected_build_commands,
        final(project)@.build_commands == old(project)@.build_commands,
        final(project)@.id == old(project)@.id,
        final(project)@.name == old(project)@.name,
        final(project)@.path == old(project)@.path,
{
    let ghost tp0 = project.target_paths.deep_view();
    let entry = TargetPath { id: fresh_id(), path: trim_str(path), is_active: true };
    project.target_paths.push(entry);
    proof {
        assert(project.target_paths.deep_view().take(tp0.len() as int) =~= tp0);
    }
}

/// Sets whether the target at `index` participates in propagation.
pub fn set_target_active(project: &mut Project, index: usize, active: bool)
    requires
        index < old(project)@.target_paths.len(),
    ensures
        final(project)@.target_paths.len() == old(project)@.target_paths.len(),
        final(project)@.target_paths[index as int].id == old(project)@.target_paths[
            index as int
        ].id,
        final(project)@.target_paths[index as int].path == old(project)@.target_paths[
            index as int
        ].path,
        final(project)@.target_paths[index as int].is_active == active,
        forall|j: int|
            0 <= j < old(project)@.target_paths.len() && j != index ==> final(project)@.target_paths[j] == old(project)@.target_paths[j],
        final(project)@.selected_build_commands == old(project)@.selected_build_commands,
        final(project)@.build_commands == old(project)@.build_commands,
        final(project)@.id == old(project)@.id,
        final(project)@.name == old(project)@.name,
        final(project)@.path == old(project)@.path,
{
    project.target_paths[index].is_active = active;
}

/// Removes the target at `index`; the others keep their order.
pub fn remove_target_path(project: &mut Project, index: usize)
    requires
        index < old(project)@.target_paths.len(),
    ensures
        final(project)@.target_paths == old(project)@.target_paths.remove(index as int),
        final(project)@.selected_build_commands == old(project)@.selected_build_commands,
        final(project)@.build_commands == old(project)@.build_commands,
        final(project)@.id == old(project)@.id,
        final(project)@.name == old(project)@.name,
        final(project)@.path == old(project)@.path,
{
    let ghost tp0 = project.target_paths.deep_view();
    project.target_paths.remove(index);
    proof {
        assert(project.target_paths.deep_view() =~= tp0.remove(index as int));
    }
}

// ---------------------------------------------------------------------------
// Looking a project up and writing it back
// ---------------------------------------------------------------------------

/// Two characters match ignoring ASCII case.
pub open spec fn chars_eq_ci(a: char, b: char) -> bool {
    a == b || ('A' <= a && a <= 'Z' && a as u32 + 32 == b as u32) || ('A' <= b && b <= 'Z'
        && b as u32 + 32 == a as u32)
}

/// Two names match ignoring ASCII case.
pub open spec fn names_eq_ci(a: Seq<char>, b: Seq<char>) -> bool {
    a.len() == b.len() && forall|j: int| 0 <= j < a.len() ==> chars_eq_ci(a[j], b[j])
}

/// Whether `ident` designates the project: its name matched without regard
/// to ASCII case, or its identifier matched exactly.
pub open spec fn ident_matches(p: ProjectView, ident: Seq<char>) -> bool {
    names_eq_ci(p.name, ident) || p.id == ident
}

fn str_eq_ci(a: &str, b: &str) -> (r: bool)
    ensures
        r == names_eq_ci(a@, b@),
{
    let n = a.unicode_len();
    if n != b.unicode_len() {
        return false;
    }
    let mut j: usize = 0;
    while j < n
        invariant
            n == a@.len(),
            n == b@.len(),
            j <= n,
            forall|t: int| 0 <= t < j ==> chars_eq_ci(a@[t], b@[t]),
        decreases n - j,
    {
        let ca = a.get_char(j) as u32;
        let cb = b.get_char(j) as u32;
        let m = ca == cb || ('A' as u32 <= ca && ca <= 'Z' as u32 && ca + 32 == cb) || (
        'A' as u32 <= cb && cb <= 'Z' as u32 && cb + 32 == ca);
        if !m {
            assert(!chars_eq_ci(a@[j as int], b@[j as int]));
            return false;
        }
        j = j + 1;
    }
    true
}

/// Finds the first project designated by `ident`: a case-insensitive name
/// match or an exact identifier match, as the command line accepts either.
pub fn find_project(projects: &Vec<Project>, ident: &str) -> (r: Option<usize>)
    ensures
        match r {
            Some(i) => i < projects@.len() && ident_matches(projects@[i as int]@, ident@)
                && forall|j: int| 0 <= j < i ==> !ident_matches(projects@[j]@, ident@),
            None => forall|j: int|
                0 <= j < projects@.len() ==> !ident_matches(projects@[j]@, ident@),
        },
{
    let mut i: usize = 0;
    while i < projects.len()
        invariant
            i <= projects@.len(),
            forall|j: int| 0 <= j < i ==> !ident_matches(projects@[j]@, ident@),
        decreases projects@.len() - i,
    {
        let p = &projects[i];
        if str_eq_ci(p.name.as_str(), ident) || str_eq(p.id.as_str(), ident) {
            return Some(i);
        }
        i = i + 1;
    }
    None
}

/// Writes an edited project back over the registry entry that shares its
/// identifier; a list without that identifier is left unchanged.
pub fn replace_project(projects: &mut Vec<Project>, updated: Project)
    ensures
        final(projects)@.len() == old(projects)@.len(),
        forall|j: int|
            0 <= j < old(projects)@.len() && old(projects)@[j]@.id != updated@.id ==> final(projects)@[j] == old(projects)@[j],
        forall|i: int|
            0 <= i < old(projects)@.len() && old(projects)@[i]@.id == updated@.id && (forall|
                j: int,
            | 0 <= j < i ==> old(projects)@[j]@.id != updated@.id) ==> final(projects)@[i]
                == updated,
        (forall|j: int| 0 <= j < old(projects)@.len() ==> old(projects)@[j]@.id != updated@.id)
            ==> final(projects)@ == old(projects)@,
        forall|i: int, j: int|
            0 <= i < old(projects)@.len() && old(projects)@[i]@.id == updated@.id && (forall|
                t: int,
            | 0 <= t < i ==> old(projects)@[t]@.id != updated@.id) && 0 <= j < old(projects)@.len() && j != i ==> final(projects)@[j] == old(projects)@[j],
{
    let mut i: usize = 0;
    while i < projects.len()
        invariant
            i <= projects@.len(),
            projects@ == old(projects)@,
            forall|j: int| 0 <= j < i ==> projects@[j]@.id != updated@.id,
        decreases projects@.len() - i,
    {
        if str_eq(projects[i].id.as_str(), updated.id.as_str()) {
            projects[i] = updated;
            return ;
        }
        i = i + 1;
    }
}

} // verus!
