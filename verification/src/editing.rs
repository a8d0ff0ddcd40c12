//! Changes the user makes to the list of projects (create, rename,
//! duplicate, delete, select) and the namespace a cluster opens in.

use vstd::prelude::*;
use crate::messages::{replaced_all, tr_format};
use crate::order::text_eq;
use crate::project::{namespaces_for_context, optional_text, Project, ProjectView};
use crate::sorted::{contains_text, first_index, lemma_first_index, lemma_first_index_at, views};
use crate::store::{
    clone_entries, context_names, find_project, project_names, project_views, remembered_namespace,
    same_except_projects, selected_index, ContextInfo, ProjectStore, StoreView,
    DEFAULT_PROJECT_NAME,
};
use crate::text::{decimal, trim, trimmed, u128_text};

verus! {

/// Why a project name is refused.
#[derive(Debug, Clone, Copy, PartialEq, Eq, Structural)]
pub enum ProjectNameError {
    /// The name is blank.
    Blank,
    /// Another project has the name.
    Taken,
}

pub open spec fn name_result_view(r: Result<String, ProjectNameError>) -> Result<Seq<char>, ProjectNameError> {
    match r {
        Ok(s) => Ok(s@),
        Err(e) => Err(e),
    }
}

/// An empty project named `name`.
pub open spec fn empty_project(name: Seq<char>) -> ProjectView {
    ProjectView { name, contexts: Seq::empty(), custom: Seq::empty() }
}

/// What creating a project named `name` (trimmed) does: refused when the
/// name is blank or taken; else the project is added and selected.
pub open spec fn adds_project(
    before: StoreView,
    after: StoreView,
    name: Seq<char>,
    r: Result<Seq<char>, ProjectNameError>,
) -> bool {
    let n = trimmed(name);
    &&& n.len() == 0 ==> r == Err::<Seq<char>, ProjectNameError>(ProjectNameError::Blank) && after == before
    &&& n.len() > 0 && project_names(before.projects).contains(n) ==> r == Err::<
        Seq<char>,
        ProjectNameError,
    >(ProjectNameError::Taken) && after == before
    &&& n.len() > 0 && !project_names(before.projects).contains(n) ==> r == Ok::<
        Seq<char>,
        ProjectNameError,
    >(n) && after.projects == before.projects.push(empty_project(n)) && after.selected == Some(n)
        && same_except_projects(after, before)
}

/// What renaming the project `current` to `name` (trimmed) does: refused
/// when the name is blank, or taken by another project; else the first
/// project named `current`, if any, takes the name, and so does the
/// selection if it was `current`.
pub open spec fn renames_project(
    before: StoreView,
    after: StoreView,
    current: Seq<char>,
    name: Seq<char>,
    r: Result<Seq<char>, ProjectNameError>,
) -> bool {
    let n = trimmed(name);
    let ps = before.projects;
    let i = first_index(project_names(ps), current);
    &&& n.len() == 0 ==> r == Err::<Seq<char>, ProjectNameError>(ProjectNameError::Blank) && after == before
    &&& n.len() > 0 && n != current && project_names(ps).contains(n) ==> r == Err::<
        Seq<char>,
        ProjectNameError,
    >(ProjectNameError::Taken) && after == before
    &&& n.len() > 0 && (n == current || !project_names(ps).contains(n)) ==> {
        &&& r == Ok::<Seq<char>, ProjectNameError>(n)
        &&& after.projects == (if i < ps.len() {
            ps.update(i, ProjectView { name: n, ..ps[i] })
        } else {
            ps
        })
        &&& after.selected == (if before.selected == Some(current) {
            Some(n)
        } else {
            before.selected
        })
        &&& same_except_projects(after, before)
    }
}

/// The name of the selected project, or `Default` when none is selected.
pub open spec fn selected_name(s: StoreView) -> Seq<char> {
    match s.selected {
        Some(n) => n,
        None => DEFAULT_PROJECT_NAME@,
    }
}

pub open spec fn not_named(n: Seq<char>) -> spec_fn(ProjectView) -> bool {
    |p: ProjectView| p.name != n
}

/// What deleting the selected project does: every project with its name
/// goes, and the first project left, if any, is selected.
pub open spec fn deletes_selected_project(before: StoreView, after: StoreView) -> bool {
    let rest = before.projects.filter(not_named(selected_name(before)));
    &&& after.projects == rest
    &&& after.selected == (if rest.len() > 0 {
        Some(rest[0].name)
    } else {
        None
    })
    &&& same_except_projects(after, before)
}

/// The names that duplicating the project `name` tries, in order: the name
/// filled into `first`, then into `numbered` with the suffixes 2, 3 and so
/// on.
pub open spec fn copy_candidate(name: Seq<char>, first: Seq<char>, numbered: Seq<char>, k: nat) -> Seq<char> {
    if k == 0 {
        replaced_all(first, seq![("{name}"@, name)])
    } else {
        replaced_all(numbered, seq![("{name}"@, name), ("{suffix}"@, decimal(k + 1))])
    }
}

/// Candidate `k` is a name that no project has.
pub open spec fn candidate_free(
    names: Seq<Seq<char>>,
    name: Seq<char>,
    first: Seq<char>,
    numbered: Seq<char>,
    k: nat,
) -> bool {
    !names.contains(copy_candidate(name, first, numbered, k))
}

/// Candidate `k` is the first that no project has.
pub open spec fn first_free(
    names: Seq<Seq<char>>,
    name: Seq<char>,
    first: Seq<char>,
    numbered: Seq<char>,
    k: nat,
) -> bool {
    &&& candidate_free(names, name, first, numbered, k)
    &&& forall|m: nat| m < k ==> !#[trigger] candidate_free(names, name, first, numbered, m)
}

/// Duplicating the selected project ends: without a selected project it
/// does nothing, else some candidate name, with a suffix that fits a
/// `u128`, is free. (Trying candidates in turn never ends otherwise.)
pub open spec fn can_duplicate(s: StoreView, first: Seq<char>, numbered: Seq<char>) -> bool {
    let i = selected_index(s);
    i < s.projects.len() ==> exists|k: nat|
        k < u128::MAX - 1 && #[trigger] candidate_free(project_names(s.projects), s.projects[i].name, first, numbered, k)
}

/// What duplicating the selected project does with the name templates
/// `first` and `numbered`: the first candidate name that no project has
/// names a copy of the selected project's contexts and namespaces, which is
/// added and selected. Nothing happens without a selected project.
pub open spec fn duplicates_project(
    before: StoreView,
    after: StoreView,
    first: Seq<char>,
    numbered: Seq<char>,
    r: Option<Seq<char>>,
) -> bool {
    let ps = before.projects;
    let i = selected_index(before);
    let names = project_names(ps);
    &&& i == ps.len() ==> r is None && after == before
    &&& i < ps.len() ==> exists|k: nat| #[trigger] first_free(names, ps[i].name, first, numbered, k) && {
        let c = copy_candidate(ps[i].name, first, numbered, k);
        &&& r == Some(c)
        &&& after.projects == ps.push(ProjectView { name: c, ..ps[i] })
        &&& after.selected == Some(c)
        &&& same_except_projects(after, before)
    }
}

pub open spec fn optional_string(o: Option<String>) -> Option<Seq<char>> {
    match o {
        Some(s) => Some(s@),
        None => None,
    }
}

/// `template` with `{name}` filled in.
fn fill_name(template: &str, name: &str) -> (r: String)
    ensures
        r@ == replaced_all(template@, seq![("{name}"@, name@)]),
{
    let reps = [("{name}", name.to_owned())];
    let r = tr_format(template, &reps);
    proof {
        reveal_strlit("{name}");
        assert(crate::messages::replacement_views(reps@) =~= seq![("{name}"@, name@)]);
    }
    r
}

/// `template` with `{name}` and `{suffix}` filled in.
fn fill_name_suffix(template: &str, name: &str, suffix: u128) -> (r: String)
    ensures
        r@ == replaced_all(template@, seq![("{name}"@, name@), ("{suffix}"@, decimal(suffix as nat))]),
{
    let reps = [("{name}", name.to_owned()), ("{suffix}", u128_text(suffix))];
    let r = tr_format(template, &reps);
    proof {
        assert(crate::messages::replacement_views(reps@) =~= seq![
            ("{name}"@, name@),
            ("{suffix}"@, decimal(suffix as nat)),
        ]);
    }
    r
}

impl ProjectStore {
    /// Creates an empty project named `name`, trimmed, and selects it.
    pub fn add_project(&mut self, name: &str) -> (r: Result<String, ProjectNameError>)
        ensures
            adds_project(old(self)@, final(self)@, name@, name_result_view(r)),
    {
        let ghost before = self@;
        let n = trim(name);
        if n.as_str().is_empty() {
            return Err(ProjectNameError::Blank);
        }
        if self.has_project(n.as_str()) {
            return Err(ProjectNameError::Taken);
        }
        let project = Project {
            name: n.clone(),
            contexts: Vec::new(),
            custom_namespaces_by_context: Vec::new(),
        };
        assert(views(project.contexts@) =~= Seq::<Seq<char>>::empty());
        assert(crate::project::entry_views(project.custom_namespaces_by_context@) =~= Seq::<crate::project::NamespacesView>::empty());
        assert(project@ =~= empty_project(n@));
        self.projects.push(project);
        self.selected_project = Some(n.clone());
        assert(self@.projects =~= before.projects.push(empty_project(n@)));
        Ok(n)
    }

    /// Renames the project `current` to `name`, trimmed, keeping it
    /// selected if it was.
    pub fn rename_project(&mut self, current: &str, name: &str) -> (r: Result<String, ProjectNameError>)
        ensures
            renames_project(old(self)@, final(self)@, current@, name@, name_result_view(r)),
    {
        let ghost before = self@;
        let n = trim(name);
        if n.as_str().is_empty() {
            return Err(ProjectNameError::Blank);
        }
        if !text_eq(n.as_str(), current) && self.has_project(n.as_str()) {
            return Err(ProjectNameError::Taken);
        }
        let i = find_project(&self.projects, current);
        if i < self.projects.len() {
            let project = Project {
                name: n.clone(),
                contexts: self.projects[i].contexts.clone(),
                custom_namespaces_by_context: clone_entries(&self.projects[i].custom_namespaces_by_context),
            };
            assert(views(project.contexts@) =~= views(self.projects@[i as int].contexts@));
            self.projects.set(i, project);
            assert(self@.projects =~= before.projects.update(
                i as int,
                ProjectView { name: n@, ..before.projects[i as int] },
            ));
        }
        let was_selected = match &self.selected_project {
            Some(s) => text_eq(s.as_str(), current),
            None => false,
        };
        if was_selected {
            self.selected_project = Some(n.clone());
        }
        Ok(n)
    }

    /// Selects the project at `index`; `None` when there is none there, else
    /// whether the selection changed.
    pub fn select_project_at(&mut self, index: usize) -> (r: Option<bool>)
        ensures
            index >= old(self)@.projects.len() ==> r is None && final(self)@ == old(self)@,
            index < old(self)@.projects.len() ==> {
                let n = old(self)@.projects[index as int].name;
                &&& r == Some(old(self)@.selected != Some(n))
                &&& final(self)@.selected == Some(n)
                &&& final(self)@.projects == old(self)@.projects
                &&& same_except_projects(final(self)@, old(self)@)
            },
    {
        if index >= self.projects.len() {
            return None;
        }
        let name = self.projects[index].name.clone();
        let same = match &self.selected_project {
            Some(s) => text_eq(s.as_str(), name.as_str()),
            None => false,
        };
        if same {
            return Some(false);
        }
        self.selected_project = Some(name);
        Some(true)
    }

    /// Whether a project may be deleted: one must remain.
    pub fn can_delete_project(&self) -> (r: bool)
        ensures
            r == (self@.projects.len() > 1),
    {
        self.projects.len() > 1
    }

    /// Deletes the selected project (every project with its name) and
    /// selects the first one left.
    pub fn delete_selected_project(&mut self)
        ensures
            deletes_selected_project(old(self)@, final(self)@),
    {
        let ghost before = self@;
        let ghost ps = before.projects;
        let name = self.selected_project_name().to_owned();
        let ghost p = not_named(name@);
        let mut kept: Vec<Project> = Vec::new();
        let mut i: usize = 0;
        proof {
            reveal(Seq::filter);
            assert(ps.take(0) =~= Seq::<ProjectView>::empty());
            assert(project_views(kept@) =~= Seq::<ProjectView>::empty());
        }
        while i < self.projects.len()
            invariant
                i <= self.projects.len(),
                before == self@,
                ps == before.projects,
                name@ == selected_name(before),
                p == not_named(name@),
                project_views(kept@) == ps.take(i as int).filter(p),
            decreases self.projects.len() - i,
        {
            proof {
                reveal(Seq::filter);
                assert(ps.take(i + 1).drop_last() =~= ps.take(i as int));
                assert(ps.take(i + 1).last() == ps[i as int]);
            }
            if !text_eq(self.projects[i].name.as_str(), name.as_str()) {
                let project = Project {
                    name: self.projects[i].name.clone(),
                    contexts: self.projects[i].contexts.clone(),
                    custom_namespaces_by_context: clone_entries(&self.projects[i].custom_namespaces_by_context),
                };
                assert(views(project.contexts@) =~= views(self.projects@[i as int].contexts@));
                let ghost prev = project_views(kept@);
                kept.push(project);
                assert(project_views(kept@) =~= prev.push(ps[i as int]));
            }
            i += 1;
        }
        assert(ps.take(ps.len() as int) =~= ps);
        self.selected_project = if kept.len() > 0 {
            Some(kept[0].name.clone())
        } else {
            None
        };
        self.projects = kept;
    }

    /// Duplicates the selected project under the first free name that the
    /// templates `first` ("{name} copy") and `numbered` ("{name} copy
    /// {suffix}", with the suffixes 2, 3 and so on), already translated,
    /// give, and selects the copy; the name, or `None` without a selected
    /// project.
    pub fn duplicate_selected_project(&mut self, first: &str, numbered: &str) -> (r: Option<String>)
        requires
            can_duplicate(old(self)@, first@, numbered@),
        ensures
            duplicates_project(old(self)@, final(self)@, first@, numbered@, optional_string(r)),
    {
        let ghost before = self@;
        let ghost names = project_names(before.projects);
        let i = self.selected_position();
        proof {
            match before.selected {
                Some(n) => lemma_first_index(project_names(before.projects), n),
                None => {},
            }
        }
        if i == self.projects.len() {
            return None;
        }
        let source = self.projects[i].name.clone();
        let ghost k0 = choose|k: nat|
            k < u128::MAX - 1 && #[trigger] candidate_free(names, source@, first@, numbered@, k);
        let mut k: u128 = 0;
        let mut candidate = fill_name(first, source.as_str());
        while self.has_project(candidate.as_str())
            invariant
                before == self@,
                names == project_names(before.projects),
                0 <= i < before.projects.len(),
                source@ == before.projects[i as int].name,
                k0 < u128::MAX - 1,
                candidate_free(names, source@, first@, numbered@, k0),
                k <= k0,
                candidate@ == copy_candidate(source@, first@, numbered@, k as nat),
                forall|m: nat| m < k ==> !#[trigger] candidate_free(names, source@, first@, numbered@, m),
            decreases k0 - k,
        {
            assert(!candidate_free(names, source@, first@, numbered@, k as nat));
            k += 1;
            candidate = fill_name_suffix(numbered, source.as_str(), k + 1);
        }
        assert(first_free(names, source@, first@, numbered@, k as nat));
        let project = Project {
            name: candidate.clone(),
            contexts: self.projects[i].contexts.clone(),
            custom_namespaces_by_context: clone_entries(&self.projects[i].custom_namespaces_by_context),
        };
        assert(views(project.contexts@) =~= views(self.projects@[i as int].contexts@));
        self.projects.push(project);
        self.selected_project = Some(candidate.clone());
        assert(self@.projects =~= before.projects.push(
            ProjectView { name: candidate@, ..before.projects[i as int] },
        ));
        Some(candidate)
    }
}

/// `namespace` is one that the cluster reported, or one added by hand for
/// `context` in the selected project.
pub open spec fn namespace_known(
    s: StoreView,
    namespaces: Seq<Seq<char>>,
    context: Option<Seq<char>>,
    namespace: Seq<char>,
) -> bool {
    ||| namespaces.contains(namespace)
    ||| selected_index(s) < s.projects.len() && match context {
        Some(c) => namespaces_for_context(s.projects[selected_index(s)].custom, c).contains(namespace),
        None => false,
    }
}

/// The namespace a cluster opens in: the one last selected in its context,
/// if it is still known, else the first namespace the cluster reported,
/// else `fallback`.
pub open spec fn preferred_namespace_of(
    s: StoreView,
    namespaces: Seq<Seq<char>>,
    context: Option<Seq<char>>,
    fallback: Seq<char>,
) -> Seq<char> {
    let last = match context {
        Some(c) => remembered_namespace(s.last_namespaces, c),
        None => None,
    };
    match last {
        Some(n) if namespace_known(s, namespaces, context, n) => n,
        _ => if namespaces.len() > 0 {
            namespaces[0]
        } else {
            fallback
        },
    }
}

/// The positions in `s` of the elements that pass `p`, in order.
pub open spec fn positions_where<A>(s: Seq<A>, p: spec_fn(A) -> bool) -> Seq<int>
    decreases s.len(),
{
    if s.len() == 0 {
        Seq::empty()
    } else {
        let m = positions_where(s.drop_last(), p);
        if p(s.last()) {
            m.push(s.len() - 1)
        } else {
            m
        }
    }
}

pub open spec fn listed_in(contexts: Seq<Seq<char>>) -> spec_fn(Seq<char>) -> bool {
    |n: Seq<char>| contexts.contains(n)
}

/// The contexts (by position among `names`) that the cluster list shows:
/// none without projects, all without a selected project, else those of
/// the selected project.
pub open spec fn project_context_positions(s: StoreView, names: Seq<Seq<char>>) -> Seq<int> {
    if s.projects.len() == 0 {
        Seq::empty()
    } else if selected_index(s) == s.projects.len() {
        positions_where(names, |n: Seq<char>| true)
    } else {
        positions_where(names, listed_in(s.projects[selected_index(s)].contexts))
    }
}

pub open spec fn positions_view(v: Seq<usize>) -> Seq<int> {
    v.map_values(|i: usize| i as int)
}

impl ProjectStore {
    /// Whether `namespace` is one that the cluster reported (`namespaces`)
    /// or one added by hand for `context` in the selected project.
    pub fn namespace_is_known(&self, namespaces: &Vec<String>, context: Option<&str>, namespace: &str) -> (r: bool)
        ensures
            r == namespace_known(self@, views(namespaces@), optional_text(context), namespace@),
    {
        if contains_text(namespaces, namespace) {
            return true;
        }
        match self.selected_project() {
            Some(project) => project.has_custom_namespace(context, namespace),
            None => false,
        }
    }

    /// The namespace a cluster opens in: the one last selected in
    /// `context`, if still known, else the first of `namespaces`, else
    /// `fallback`.
    pub fn preferred_namespace(&self, namespaces: &Vec<String>, context: Option<&str>, fallback: &str) -> (r: String)
        ensures
            r@ == preferred_namespace_of(self@, views(namespaces@), optional_text(context), fallback@),
    {
        match self.last_namespace_for_context(context) {
            Some(n) => {
                if self.namespace_is_known(namespaces, context, n) {
                    return n.to_owned();
                }
            },
            None => {},
        }
        if namespaces.len() > 0 {
            namespaces[0].clone()
        } else {
            fallback.to_owned()
        }
    }

    /// Remembers a namespace the user entered: it joins `namespaces` if
    /// new, and is added by hand for `context` in the selected project.
    /// "all" and blank names are ignored. Whether the store changed (and
    /// must be saved).
    pub fn remember_namespace(&mut self, namespaces: &mut Vec<String>, context: Option<&str>, namespace: &str) -> (r: bool)
        ensures
            ({
                let ns = namespace@;
                let before = old(self)@;
                let i = selected_index(before);
                let ignored = ns == "all"@ || ns.len() == 0;
                &&& ignored ==> !r && final(self)@ == before && final(namespaces)@ == old(namespaces)@
                &&& !ignored ==> views(final(namespaces)@) == (if views(old(namespaces)@).contains(ns) {
                    views(old(namespaces)@)
                } else {
                    views(old(namespaces)@).push(ns)
                })
                &&& !ignored && (context is None || i == before.projects.len()) ==> !r && final(self)@ == before
                &&& !ignored && context is Some && i < before.projects.len() ==> exists|p: ProjectView|
                    crate::project::adds_custom_namespace(before.projects[i], p, context->0@, ns, r)
                        && final(self)@.projects == before.projects.update(i, p)
                        && final(self)@.selected == before.selected
                        && same_except_projects(final(self)@, before)
            }),
    {
        if text_eq(namespace, "all") || namespace.is_empty() {
            return false;
        }
        if !contains_text(namespaces, namespace) {
            let ghost prev = views(namespaces@);
            namespaces.push(namespace.to_owned());
            assert(views(namespaces@) =~= prev.push(namespace@));
        }
        match context {
            None => false,
            Some(c) => {
                match self.selected_project_mut() {
                    Some(project) => {
                        let r = project.add_custom_namespace(c, namespace);
                        r
                    },
                    None => false,
                }
            },
        }
    }

    /// The positions among `contexts` of those the cluster list shows: none
    /// without projects, all without a selected project, else those of the
    /// selected project.
    pub fn project_contexts(&self, contexts: &[ContextInfo]) -> (r: Vec<usize>)
        ensures
            positions_view(r@) == project_context_positions(self@, context_names(contexts@)),
    {
        let ghost names = context_names(contexts@);
        let mut r: Vec<usize> = Vec::new();
        if self.projects.len() == 0 {
            assert(positions_view(r@) =~= Seq::<int>::empty());
            return r;
        }
        let selected = self.selected_project();
        let ghost keep: spec_fn(Seq<char>) -> bool = match selected {
            Some(p) => listed_in(p@.contexts),
            None => |n: Seq<char>| true,
        };
        let mut i: usize = 0;
        assert(names.take(0) =~= Seq::<Seq<char>>::empty());
        assert(positions_view(r@) =~= Seq::<int>::empty());
        while i < contexts.len()
            invariant
                i <= contexts.len(),
                names == context_names(contexts@),
                positions_view(r@) == positions_where(names.take(i as int), keep),
                keep == (match selected {
                    Some(p) => listed_in(p@.contexts),
                    None => |n: Seq<char>| true,
                }),
            decreases contexts.len() - i,
        {
            proof {
                assert(names.take(i + 1).drop_last() =~= names.take(i as int));
                assert(names.take(i + 1).last() == contexts@[i as int].name@);
            }
            let shown = match selected {
                Some(p) => contains_text(&p.contexts, contexts[i].name.as_str()),
                None => true,
            };
            if shown {
                let ghost prev = positions_view(r@);
                r.push(i);
                assert(positions_view(r@) =~= prev.push(i as int));
            }
            i += 1;
        }
        assert(names.take(contexts.len() as int) =~= names);
        r
    }
}

/// A project just created is the selected one, under the name given
/// (trimmed), and no other project has that name.
pub proof fn lemma_created_project_selected(
    before: StoreView,
    after: StoreView,
    name: Seq<char>,
    n: Seq<char>,
)
    requires
        adds_project(before, after, name, Ok(n)),
    ensures
        n == trimmed(name),
        selected_index(after) == before.projects.len(),
        after.projects[selected_index(after)] == empty_project(n),
        forall|k: int| 0 <= k < before.projects.len() ==> (#[trigger] after.projects[k]).name != n,
{
    let names = project_names(after.projects);
    assert forall|k: int| 0 <= k < before.projects.len() implies (#[trigger] after.projects[k]).name != n by {
        assert(after.projects[k] == before.projects[k]);
        assert(project_names(before.projects)[k] == before.projects[k].name);
    }
    assert forall|k: int| 0 <= k < before.projects.len() implies names[k] != n by {
        assert(names[k] == after.projects[k].name);
    }
    assert(names[before.projects.len() as int] == n);
    lemma_first_index_at(names, n, before.projects.len() as int);
}

/// Deleting the selected project leaves no project with its name, and the
/// selection names a project whenever one is left.
pub proof fn lemma_deleted_project_gone(before: StoreView, after: StoreView)
    requires
        deletes_selected_project(before, after),
    ensures
        forall|k: int| 0 <= k < after.projects.len() ==> (#[trigger] after.projects[k]).name != selected_name(before),
        after.projects.len() > 0 ==> selected_index(after) == 0,
        after.projects.len() == 0 ==> after.selected is None,
{
    crate::sorted::lemma_filter_elements(before.projects, not_named(selected_name(before)));
    if after.projects.len() > 0 {
        lemma_first_index_at(project_names(after.projects), after.projects[0].name, 0);
    }
}

/// A duplicate gets a name that no project had, the contexts and
/// namespaces of the selected project, and the selection.
pub proof fn lemma_duplicate_is_new(
    before: StoreView,
    after: StoreView,
    first: Seq<char>,
    numbered: Seq<char>,
    c: Seq<char>,
)
    requires
        duplicates_project(before, after, first, numbered, Some(c)),
    ensures
        !project_names(before.projects).contains(c),
        selected_index(before) < before.projects.len(),
        after.projects.last().name == c,
        after.projects.last().contexts == before.projects[selected_index(before)].contexts,
        after.projects.last().custom == before.projects[selected_index(before)].custom,
        selected_index(after) == before.projects.len(),
{
    let ps = before.projects;
    let i = selected_index(before);
    let names = project_names(ps);
    match before.selected {
        Some(n) => lemma_first_index(names, n),
        None => {},
    }
    assert(i < ps.len());
    let k = choose|k: nat| #[trigger] first_free(names, ps[i].name, first, numbered, k) && after.projects
        == ps.push(ProjectView { name: copy_candidate(ps[i].name, first, numbered, k), ..ps[i] });
    assert(after.projects == ps.push(ProjectView { name: c, ..ps[i] }));
    let an = project_names(after.projects);
    assert forall|m: int| 0 <= m < ps.len() implies an[m] != c by {
        assert(an[m] == names[m]);
    }
    assert(an[ps.len() as int] == c);
    lemma_first_index_at(an, c, ps.len() as int);
}

} // verus!
