//! The saved project store: projects, the selected project, per-context
//! remembered namespaces, object table columns and widths, and favourites.

use vstd::prelude::*;
use crate::columns::{
    all_columns, column_index, default_column_width, default_object_columns, lemma_all_columns,
    ObjectColumn, ObjectTableColumn, OBJECT_COLUMN_MIN_WIDTH, OBJECT_NAME_MIN_WIDTH,
    OBJECT_NAME_WIDTH,
};
use crate::favorite::{
    favorite_matches, favorite_of, favorite_views, normalize_favorites, normalized_favorites,
    DetailTarget, FavoriteView, ObjectFavorite,
};
use crate::keyed::{first_per_key, lemma_first_per_key_empty, lemma_first_per_key_step, strict_order};
use crate::order::{lemma_text_order, text_eq, text_less, text_lt, text_order};
use crate::project::{
    copy_entry, entry_views, normalized_entries, without_text, NamespacesView, Project, ProjectView,
};
use crate::sorted::{
    contains_text, first_index, lemma_first_index, lemma_first_index_at, lemma_sorted_set,
    sort_dedup, sorted_set, views,
};
use crate::text::{trim, trimmed};

verus! {

pub const DEFAULT_PROJECT_NAME: &'static str = "Default";

pub const OBJECT_COLUMN_SCHEMA_VERSION: u32 = 3;

/// A cluster context of the kubeconfig.
#[derive(Debug, Clone)]
pub struct ContextInfo {
    pub name: String,
    pub cluster: String,
    pub server: String,
    pub host: String,
    pub user: String,
    pub is_current: bool,
    pub insecure_skip_tls_verify: bool,
}

/// The namespace last selected in a context.
#[derive(Debug, Clone)]
pub struct ContextNamespaceSelection {
    pub context: String,
    pub namespace: String,
}

pub struct SelectionView {
    pub context: Seq<char>,
    pub namespace: Seq<char>,
}

impl View for ContextNamespaceSelection {
    type V = SelectionView;

    open spec fn view(&self) -> SelectionView {
        SelectionView { context: self.context@, namespace: self.namespace@ }
    }
}

/// A width the user gave a data column.
#[derive(Debug, Clone, Copy)]
pub struct ObjectColumnWidth {
    pub column: ObjectColumn,
    pub width: i32,
}

pub struct WidthView {
    pub column: ObjectColumn,
    pub width: int,
}

impl View for ObjectColumnWidth {
    type V = WidthView;

    open spec fn view(&self) -> WidthView {
        WidthView { column: self.column, width: self.width as int }
    }
}

/// The saved state of projects and table settings.
#[derive(Debug, Clone)]
pub struct ProjectStore {
    pub projects: Vec<Project>,
    pub selected_project: Option<String>,
    pub last_namespaces_by_context: Vec<ContextNamespaceSelection>,
    pub object_column_schema_version: u32,
    pub visible_object_columns: Vec<ObjectColumn>,
    pub object_name_width: Option<i32>,
    pub object_column_widths: Vec<ObjectColumnWidth>,
    pub favorite_objects: Vec<ObjectFavorite>,
}

pub struct StoreView {
    pub projects: Seq<ProjectView>,
    pub selected: Option<Seq<char>>,
    pub last_namespaces: Seq<SelectionView>,
    pub schema_version: int,
    pub columns: Seq<ObjectColumn>,
    pub name_width: Option<int>,
    pub widths: Seq<WidthView>,
    pub favorites: Seq<FavoriteView>,
}

pub open spec fn project_views(s: Seq<Project>) -> Seq<ProjectView> {
    s.map_values(|p: Project| p@)
}

pub open spec fn selection_views(s: Seq<ContextNamespaceSelection>) -> Seq<SelectionView> {
    s.map_values(|e: ContextNamespaceSelection| e@)
}

pub open spec fn width_views(s: Seq<ObjectColumnWidth>) -> Seq<WidthView> {
    s.map_values(|e: ObjectColumnWidth| e@)
}

pub open spec fn optional_name(o: Option<String>) -> Option<Seq<char>> {
    match o {
        Some(s) => Some(s@),
        None => None,
    }
}

pub open spec fn optional_width(o: Option<i32>) -> Option<int> {
    match o {
        Some(w) => Some(w as int),
        None => None,
    }
}

impl View for ProjectStore {
    type V = StoreView;

    open spec fn view(&self) -> StoreView {
        StoreView {
            projects: project_views(self.projects@),
            selected: optional_name(self.selected_project),
            last_namespaces: selection_views(self.last_namespaces_by_context@),
            schema_version: self.object_column_schema_version as int,
            columns: self.visible_object_columns@,
            name_width: optional_width(self.object_name_width),
            widths: width_views(self.object_column_widths@),
            favorites: favorite_views(self.favorite_objects@),
        }
    }
}

pub open spec fn project_names(ps: Seq<ProjectView>) -> Seq<Seq<char>> {
    ps.map_values(|p: ProjectView| p.name)
}

/// The position of the selected project, or the number of projects when
/// none is selected or the selected name matches no project.
pub open spec fn selected_index(s: StoreView) -> int {
    match s.selected {
        Some(name) => first_index(project_names(s.projects), name),
        None => s.projects.len() as int,
    }
}

/// The width a data column is shown with.
pub open spec fn shown_column_width(widths: Seq<WidthView>, c: ObjectColumn) -> int {
    let i = first_index(widths.map_values(|e: WidthView| e.column), c);
    let w = if i < widths.len() { widths[i].width } else { default_column_width(c) };
    if w < OBJECT_COLUMN_MIN_WIDTH { OBJECT_COLUMN_MIN_WIDTH as int } else { w }
}

/// The width the name column is shown with.
pub open spec fn shown_name_width(w: Option<int>) -> int {
    let v = match w {
        Some(v) => v,
        None => OBJECT_NAME_WIDTH as int,
    };
    if v < OBJECT_NAME_MIN_WIDTH { OBJECT_NAME_MIN_WIDTH as int } else { v }
}

/// `s` with every other field as in `t`: the store `t` with its table
/// columns replaced.
pub open spec fn same_except_columns(s: StoreView, t: StoreView) -> bool {
    &&& s.projects == t.projects
    &&& s.selected == t.selected
    &&& s.last_namespaces == t.last_namespaces
    &&& s.schema_version == t.schema_version
    &&& s.name_width == t.name_width
    &&& s.widths == t.widths
    &&& s.favorites == t.favorites
}

pub open spec fn shown_in(cols: Seq<ObjectColumn>) -> spec_fn(ObjectColumn) -> bool {
    |c: ObjectColumn| cols.contains(c)
}

/// The empty store of a first start.
pub open spec fn empty_store() -> StoreView {
    StoreView {
        projects: Seq::empty(),
        selected: None,
        last_namespaces: Seq::empty(),
        schema_version: OBJECT_COLUMN_SCHEMA_VERSION as int,
        columns: all_columns(),
        name_width: None,
        widths: Seq::empty(),
        favorites: Seq::empty(),
    }
}

/// A store holding one empty project named `Default`, selected.
pub open spec fn default_store() -> StoreView {
    StoreView {
        projects: seq![ProjectView { name: "Default"@, contexts: Seq::empty(), custom: Seq::empty() }],
        selected: Some("Default"@),
        ..empty_store()
    }
}

impl ProjectStore {
    pub fn empty() -> (r: ProjectStore)
        ensures
            r@ == empty_store(),
    {
        let r = ProjectStore {
            projects: Vec::new(),
            selected_project: None,
            last_namespaces_by_context: Vec::new(),
            object_column_schema_version: OBJECT_COLUMN_SCHEMA_VERSION,
            visible_object_columns: default_object_columns(),
            object_name_width: None,
            object_column_widths: Vec::new(),
            favorite_objects: Vec::new(),
        };
        assert(r@.projects =~= Seq::<ProjectView>::empty());
        assert(r@.last_namespaces =~= Seq::<SelectionView>::empty());
        assert(r@.widths =~= Seq::<WidthView>::empty());
        assert(r@.favorites =~= Seq::<FavoriteView>::empty());
        r
    }

    pub fn with_default_project() -> (r: ProjectStore)
        ensures
            r@ == default_store(),
    {
        let project = Project {
            name: DEFAULT_PROJECT_NAME.to_owned(),
            contexts: Vec::new(),
            custom_namespaces_by_context: Vec::new(),
        };
        assert(project@.contexts =~= Seq::<Seq<char>>::empty());
        assert(project@.custom =~= Seq::<crate::project::NamespacesView>::empty());
        let mut r = ProjectStore::empty();
        r.projects.push(project);
        r.selected_project = Some(DEFAULT_PROJECT_NAME.to_owned());
        assert(r@.projects =~= default_store().projects);
        r
    }

    /// Whether a project is named `name`.
    pub fn has_project(&self, name: &str) -> (r: bool)
        ensures
            r == project_names(self@.projects).contains(name@),
    {
        let i = find_project(&self.projects, name);
        proof {
            lemma_first_index(project_names(self@.projects), name@);
        }
        i < self.projects.len()
    }

    /// The selected project, if one is selected and exists.
    pub fn selected_project(&self) -> (r: Option<&Project>)
        ensures
            match r {
                Some(p) => selected_index(self@) < self@.projects.len() && p@ == self@.projects[selected_index(self@)],
                None => selected_index(self@) == self@.projects.len(),
            },
    {
        match &self.selected_project {
            None => None,
            Some(name) => {
                let i = find_project(&self.projects, name.as_str());
                proof {
                    lemma_first_index(project_names(self@.projects), name@);
                }
                if i < self.projects.len() {
                    Some(&self.projects[i])
                } else {
                    None
                }
            },
        }
    }

    /// The name of the selected project, `Default` if none is selected.
    pub fn selected_project_name(&self) -> (r: &str)
        ensures
            r@ == match self@.selected {
                Some(name) => name,
                None => DEFAULT_PROJECT_NAME@,
            },
    {
        match &self.selected_project {
            Some(name) => name.as_str(),
            None => DEFAULT_PROJECT_NAME,
        }
    }

    /// The width a data column is shown with: the one the user set, else the
    /// column's default, and never below the minimum.
    pub fn object_column_width(&self, column: ObjectColumn) -> (r: i32)
        ensures
            r == shown_column_width(self@.widths, column),
    {
        let ghost cols = self@.widths.map_values(|e: WidthView| e.column);
        let mut i: usize = 0;
        while i < self.object_column_widths.len() && self.object_column_widths[i].column != column
            invariant
                i <= self.object_column_widths.len(),
                cols == self@.widths.map_values(|e: WidthView| e.column),
                forall|k: int| 0 <= k < i ==> cols[k] != column,
            decreases self.object_column_widths.len() - i,
        {
            i += 1;
        }
        proof {
            lemma_first_index_at(cols, column, i as int);
        }
        let w = if i < self.object_column_widths.len() {
            self.object_column_widths[i].width
        } else {
            column.default_width()
        };
        if w < OBJECT_COLUMN_MIN_WIDTH {
            OBJECT_COLUMN_MIN_WIDTH
        } else {
            w
        }
    }

    /// The width the name column is shown with.
    pub fn object_name_width(&self) -> (r: i32)
        ensures
            r == shown_name_width(self@.name_width),
    {
        let w = match self.object_name_width {
            Some(w) => w,
            None => OBJECT_NAME_WIDTH,
        };
        if w < OBJECT_NAME_MIN_WIDTH {
            OBJECT_NAME_MIN_WIDTH
        } else {
            w
        }
    }

    /// Keeps the data columns that are shown in display order, each once.
    pub fn normalize_object_columns(&mut self)
        ensures
            final(self)@.columns == all_columns().filter(shown_in(old(self)@.columns)),
            same_except_columns(final(self)@, old(self)@),
    {
        let ghost cols = self@.columns;
        let mut out: Vec<ObjectColumn> = Vec::new();
        let mut i: usize = 0;
        proof {
            lemma_all_columns();
            reveal(Seq::filter);
            assert(all_columns().take(0) =~= Seq::<ObjectColumn>::empty());
        }
        while i < 10
            invariant
                i <= 10,
                cols == self@.columns,
                out@ == all_columns().take(i as int).filter(shown_in(cols)),
            decreases 10 - i,
        {
            let c = ObjectColumn::at(i);
            proof {
                lemma_all_columns();
                reveal(Seq::filter);
                assert(all_columns().take(i + 1).drop_last() =~= all_columns().take(i as int));
                assert(all_columns().take(i + 1).last() == c);
            }
            if contains_column(&self.visible_object_columns, c) {
                out.push(c);
            }
            i += 1;
        }
        proof {
            lemma_all_columns();
            assert(all_columns().take(10) =~= all_columns());
        }
        self.visible_object_columns = out;
    }

    /// Shows or hides a data column; the shown columns stay in display order.
    pub fn set_object_column_visible(&mut self, column: ObjectColumn, visible: bool)
        ensures
            final(self)@.columns == all_columns().filter(
                shown_in(
                    if visible {
                        old(self)@.columns.push(column)
                    } else {
                        old(self)@.columns.filter(|c: ObjectColumn| c != column)
                    },
                ),
            ),
            same_except_columns(final(self)@, old(self)@),
    {
        let ghost before = self@;
        if visible {
            if !contains_column(&self.visible_object_columns, column) {
                self.visible_object_columns.push(column);
            } else {
                proof {
                    assert forall|c: ObjectColumn| #[trigger] before.columns.push(column).contains(c) implies before.columns.contains(c) by {
                        if c != column {
                            let k = choose|k: int| 0 <= k < before.columns.len() + 1 && before.columns.push(column)[k] == c;
                            assert(before.columns[k] == c);
                        }
                    }
                    assert forall|c: ObjectColumn| #[trigger] before.columns.contains(c) implies before.columns.push(column).contains(c) by {
                        let k = choose|k: int| 0 <= k < before.columns.len() && before.columns[k] == c;
                        assert(before.columns.push(column)[k] == c);
                    }
                }
            }
            proof {
                assert(shown_in(self@.columns) =~= shown_in(before.columns.push(column)));
            }
        } else {
            let mut out: Vec<ObjectColumn> = Vec::new();
            let mut i: usize = 0;
            proof {
                reveal(Seq::filter);
                assert(before.columns.take(0) =~= Seq::<ObjectColumn>::empty());
            }
            while i < self.visible_object_columns.len()
                invariant
                    i <= self.visible_object_columns.len(),
                    before == self@,
                    out@ == before.columns.take(i as int).filter(|c: ObjectColumn| c != column),
                decreases self.visible_object_columns.len() - i,
            {
                proof {
                    reveal(Seq::filter);
                    assert(before.columns.take(i + 1).drop_last() =~= before.columns.take(i as int));
                }
                let c = self.visible_object_columns[i];
                if c != column {
                    out.push(c);
                }
                i += 1;
            }
            assert(before.columns.take(before.columns.len() as int) =~= before.columns);
            self.visible_object_columns = out;
        }
        self.normalize_object_columns();
    }
}

/// The position of the first project named `name`, or the number of projects.
pub fn find_project(ps: &Vec<Project>, name: &str) -> (i: usize)
    ensures
        i == first_index(project_names(project_views(ps@)), name@),
{
    let ghost names = project_names(project_views(ps@));
    let mut i: usize = 0;
    while i < ps.len()
        invariant
            i <= ps.len(),
            names == project_names(project_views(ps@)),
            forall|k: int| 0 <= k < i ==> names[k] != name@,
        decreases ps.len() - i,
    {
        if text_eq(ps[i].name.as_str(), name) {
            proof {
                lemma_first_index_at(names, name@, i as int);
            }
            return i;
        }
        i += 1;
    }
    proof {
        lemma_first_index_at(names, name@, i as int);
    }
    i
}

/// Whether `column` is in `cols`.
pub fn contains_column(cols: &Vec<ObjectColumn>, column: ObjectColumn) -> (r: bool)
    ensures
        r == cols@.contains(column),
{
    let mut i: usize = 0;
    while i < cols.len()
        invariant
            i <= cols.len(),
            forall|k: int| 0 <= k < i ==> cols@[k] != column,
        decreases cols.len() - i,
    {
        if cols[i] == column {
            return true;
        }
        i += 1;
    }
    false
}


pub open spec fn clamp_width_fn() -> spec_fn(WidthView) -> WidthView {
    |e: WidthView| WidthView {
        column: e.column,
        width: if e.width < OBJECT_COLUMN_MIN_WIDTH { OBJECT_COLUMN_MIN_WIDTH as int } else { e.width },
    }
}

pub open spec fn any_width_fn() -> spec_fn(WidthView) -> bool {
    |e: WidthView| true
}

pub open spec fn width_column_fn() -> spec_fn(WidthView) -> int {
    |e: WidthView| column_index(e.column)
}

pub open spec fn int_order() -> spec_fn(int, int) -> bool {
    |a: int, b: int| a < b
}

pub open spec fn not_default_width() -> spec_fn(WidthView) -> bool {
    |e: WidthView| e.width != default_column_width(e.column)
}

pub open spec fn other_column(c: ObjectColumn) -> spec_fn(WidthView) -> bool {
    |e: WidthView| e.column != c
}

/// `r` is the list of column widths `ws` cleaned up: each raised to the
/// minimum, one per column (the first given), in display order, without the
/// ones equal to the column's default.
pub open spec fn normalized_widths(r: Seq<WidthView>, ws: Seq<WidthView>) -> bool {
    exists|f: Seq<WidthView>|
        #[trigger] first_per_key(f, ws, any_width_fn(), clamp_width_fn(), width_column_fn(), int_order())
            && r == f.filter(not_default_width())
}

pub proof fn lemma_int_order()
    ensures
        strict_order(int_order()),
{
}

/// `s` and `t` agree on everything but the widths of the table columns.
pub open spec fn same_except_widths(s: StoreView, t: StoreView) -> bool {
    &&& s.projects == t.projects
    &&& s.selected == t.selected
    &&& s.last_namespaces == t.last_namespaces
    &&& s.schema_version == t.schema_version
    &&& s.columns == t.columns
    &&& s.favorites == t.favorites
}

/// What setting the name column to `width` does: the width is raised to the
/// minimum and forgotten when it equals the default; whether it changed.
pub open spec fn sets_name_width(before: StoreView, after: StoreView, width: int, r: bool) -> bool {
    let w = if width < OBJECT_NAME_MIN_WIDTH { OBJECT_NAME_MIN_WIDTH as int } else { width };
    let next = if w != OBJECT_NAME_WIDTH { Some(w) } else { None };
    &&& r == (before.name_width != next)
    &&& after.name_width == next
    &&& after.widths == before.widths
    &&& same_except_widths(after, before)
}

/// What setting the data column `c` to `width` does: the width is raised to
/// the minimum; a default width forgets what was set for the column; an
/// existing entry is updated; else a new one is added and the widths are
/// cleaned up. Whether anything changed.
pub open spec fn sets_column_width(before: StoreView, after: StoreView, c: ObjectColumn, width: int, r: bool) -> bool {
    let w = if width < OBJECT_COLUMN_MIN_WIDTH { OBJECT_COLUMN_MIN_WIDTH as int } else { width };
    let ws = before.widths;
    let i = first_index(ws.map_values(|e: WidthView| e.column), c);
    &&& after.name_width == before.name_width
    &&& same_except_widths(after, before)
    &&& w == default_column_width(c) ==> after.widths == ws.filter(other_column(c))
        && r == ws.map_values(|e: WidthView| e.column).contains(c)
    &&& w != default_column_width(c) && i < ws.len() ==> r == (ws[i].width != w) && after.widths
        == ws.update(i, WidthView { column: c, width: w })
    &&& w != default_column_width(c) && i == ws.len() ==> r && normalized_widths(
        after.widths,
        ws.push(WidthView { column: c, width: w }),
    )
}

impl ProjectStore {
    /// Sets the width of the name column; whether it changed.
    pub fn set_object_name_width(&mut self, width: i32) -> (r: bool)
        ensures
            sets_name_width(old(self)@, final(self)@, width as int, r),
    {
        let w = if width < OBJECT_NAME_MIN_WIDTH {
            OBJECT_NAME_MIN_WIDTH
        } else {
            width
        };
        let next = if w != OBJECT_NAME_WIDTH {
            Some(w)
        } else {
            None
        };
        let same = match (self.object_name_width, next) {
            (Some(a), Some(b)) => a == b,
            (None, None) => true,
            _ => false,
        };
        if same {
            return false;
        }
        self.object_name_width = next;
        true
    }

    /// Sets the width of a data column; whether it changed.
    pub fn set_object_column_width(&mut self, column: ObjectColumn, width: i32) -> (r: bool)
        ensures
            sets_column_width(old(self)@, final(self)@, column, width as int, r),
    {
        let ghost ws = self@.widths;
        let ghost cols = ws.map_values(|e: WidthView| e.column);
        let w = if width < OBJECT_COLUMN_MIN_WIDTH {
            OBJECT_COLUMN_MIN_WIDTH
        } else {
            width
        };
        if w == column.default_width() {
            let mut out: Vec<ObjectColumnWidth> = Vec::new();
            let mut found = false;
            let mut i: usize = 0;
            proof {
                reveal(Seq::filter);
                assert(ws.take(0) =~= Seq::<WidthView>::empty());
                assert(width_views(out@) =~= Seq::<WidthView>::empty());
            }
            while i < self.object_column_widths.len()
                invariant
                    i <= self.object_column_widths.len(),
                    ws == self@.widths,
                    cols == ws.map_values(|e: WidthView| e.column),
                    width_views(out@) == ws.take(i as int).filter(other_column(column)),
                    found == cols.take(i as int).contains(column),
                decreases self.object_column_widths.len() - i,
            {
                proof {
                    reveal(Seq::filter);
                    assert(ws.take(i + 1).drop_last() =~= ws.take(i as int));
                    assert(cols.take(i + 1) =~= cols.take(i as int).push(cols[i as int]));
                }
                let e = self.object_column_widths[i];
                if e.column != column {
                    out.push(e);
                    assert(width_views(out@) =~= ws.take(i as int).filter(other_column(column)).push(e@));
                    assert(cols.take(i + 1).contains(column) ==> cols.take(i as int).contains(column)) by {
                        if cols.take(i + 1).contains(column) {
                            let k = choose|k: int| 0 <= k < i + 1 && #[trigger] cols.take(i + 1)[k] == column;
                            assert(cols.take(i as int)[k] == column);
                        }
                    }
                } else {
                    found = true;
                    assert(cols.take(i + 1)[i as int] == column);
                }
                assert(cols.take(i as int).contains(column) ==> cols.take(i + 1).contains(column)) by {
                    if cols.take(i as int).contains(column) {
                        let k = choose|k: int| 0 <= k < i && #[trigger] cols.take(i as int)[k] == column;
                        assert(cols.take(i + 1)[k] == column);
                    }
                }
                i += 1;
            }
            assert(ws.take(ws.len() as int) =~= ws);
            assert(cols.take(cols.len() as int) =~= cols);
            self.object_column_widths = out;
            return found;
        }
        let mut i: usize = 0;
        while i < self.object_column_widths.len() && self.object_column_widths[i].column != column
            invariant
                i <= self.object_column_widths.len(),
                ws == self@.widths,
                cols == ws.map_values(|e: WidthView| e.column),
                forall|k: int| 0 <= k < i ==> cols[k] != column,
            decreases self.object_column_widths.len() - i,
        {
            i += 1;
        }
        proof {
            lemma_first_index_at(cols, column, i as int);
        }
        if i < self.object_column_widths.len() {
            if self.object_column_widths[i].width == w {
                assert(cols[i as int] == ws[i as int].column);
                assert(ws.update(i as int, WidthView { column, width: w as int }) =~= ws);
                return false;
            }
            self.object_column_widths.set(i, ObjectColumnWidth { column, width: w });
            assert(self@.widths =~= ws.update(i as int, WidthView { column, width: w as int }));
            return true;
        }
        self.object_column_widths.push(ObjectColumnWidth { column, width: w });
        assert(self@.widths =~= ws.push(WidthView { column, width: w as int }));
        self.normalize_object_column_widths();
        true
    }

    /// Sets the width of any table column; whether it changed.
    pub fn set_object_table_column_width(&mut self, column: ObjectTableColumn, width: i32) -> (r: bool)
        ensures
            match column {
                ObjectTableColumn::Name => sets_name_width(old(self)@, final(self)@, width as int, r),
                ObjectTableColumn::Data(c) => sets_column_width(old(self)@, final(self)@, c, width as int, r),
            },
    {
        match column {
            ObjectTableColumn::Name => self.set_object_name_width(width),
            ObjectTableColumn::Data(c) => self.set_object_column_width(c, width),
        }
    }

    /// Cleans up the column widths: see `normalized_widths`.
    pub fn normalize_object_column_widths(&mut self)
        ensures
            normalized_widths(final(self)@.widths, old(self)@.widths),
            final(self)@.name_width == old(self)@.name_width,
            same_except_widths(final(self)@, old(self)@),
    {
        let ghost ws = self@.widths;
        let mut out: Vec<ObjectColumnWidth> = Vec::new();
        let mut i: usize = 0;
        proof {
            lemma_int_order();
            lemma_first_per_key_empty(any_width_fn(), clamp_width_fn(), width_column_fn(), int_order());
            assert(ws.take(0) =~= Seq::<WidthView>::empty());
            assert(width_views(out@) =~= Seq::<WidthView>::empty());
        }
        while i < self.object_column_widths.len()
            invariant
                i <= self.object_column_widths.len(),
                ws == self@.widths,
                first_per_key(width_views(out@), ws.take(i as int), any_width_fn(), clamp_width_fn(), width_column_fn(), int_order()),
            decreases self.object_column_widths.len() - i,
        {
            let ghost r = width_views(out@);
            let e = self.object_column_widths[i];
            let w = if e.width < OBJECT_COLUMN_MIN_WIDTH {
                OBJECT_COLUMN_MIN_WIDTH
            } else {
                e.width
            };
            let key = e.column.position();
            let mut p: usize = 0;
            while p < out.len() && out[p].column.position() < key
                invariant
                    p <= out.len(),
                    r == width_views(out@),
                    forall|k: int| 0 <= k < p ==> column_index(#[trigger] r[k].column) < key,
                decreases out.len() - p,
            {
                p += 1;
            }
            proof {
                lemma_int_order();
                lemma_first_per_key_step(r, ws.take(i as int), ws[i as int], any_width_fn(), clamp_width_fn(), width_column_fn(), int_order(), p as int);
                assert(ws.take(i as int).push(ws[i as int]) =~= ws.take(i + 1));
            }
            let present = p < out.len() && out[p].column.position() == key;
            if !present {
                out.insert(p, ObjectColumnWidth { column: e.column, width: w });
                assert(width_views(out@) =~= r.insert(p as int, (clamp_width_fn())(ws[i as int])));
            }
            i += 1;
        }
        assert(ws.take(ws.len() as int) =~= ws);
        let ghost f = width_views(out@);
        let mut kept: Vec<ObjectColumnWidth> = Vec::new();
        let mut k: usize = 0;
        proof {
            reveal(Seq::filter);
            assert(f.take(0) =~= Seq::<WidthView>::empty());
            assert(width_views(kept@) =~= Seq::<WidthView>::empty());
        }
        while k < out.len()
            invariant
                k <= out.len(),
                f == width_views(out@),
                width_views(kept@) == f.take(k as int).filter(not_default_width()),
            decreases out.len() - k,
        {
            proof {
                reveal(Seq::filter);
                assert(f.take(k + 1).drop_last() =~= f.take(k as int));
            }
            let e = out[k];
            if e.width != e.column.default_width() {
                kept.push(e);
                assert(width_views(kept@) =~= f.take(k as int).filter(not_default_width()).push(e@));
            }
            k += 1;
        }
        assert(f.take(f.len() as int) =~= f);
        self.object_column_widths = kept;
    }

    /// Raises a remembered name width to the minimum, forgetting it when it
    /// is the default.
    pub fn normalize_object_name_width(&mut self)
        ensures
            final(self)@.name_width == normalized_name_width(old(self)@.name_width),
            final(self)@.widths == old(self)@.widths,
            same_except_widths(final(self)@, old(self)@),
    {
        self.object_name_width = match self.object_name_width {
            Some(v) => {
                let w = if v < OBJECT_NAME_MIN_WIDTH {
                    OBJECT_NAME_MIN_WIDTH
                } else {
                    v
                };
                if w != OBJECT_NAME_WIDTH {
                    Some(w)
                } else {
                    None
                }
            },
            None => None,
        };
    }

    /// Brings the shown columns of an older save up to date: columns added
    /// since are shown, and the save is marked current.
    pub fn migrate_object_columns(&mut self)
        ensures
            final(self)@.columns == migrated_columns(old(self)@.schema_version, old(self)@.columns),
            final(self)@.schema_version == OBJECT_COLUMN_SCHEMA_VERSION,
            final(self)@.projects == old(self)@.projects,
            final(self)@.selected == old(self)@.selected,
            final(self)@.last_namespaces == old(self)@.last_namespaces,
            final(self)@.name_width == old(self)@.name_width,
            final(self)@.widths == old(self)@.widths,
            final(self)@.favorites == old(self)@.favorites,
    {
        if self.object_column_schema_version < 1 && !contains_column(&self.visible_object_columns, ObjectColumn::Image) {
            self.visible_object_columns.push(ObjectColumn::Image);
        }
        if self.object_column_schema_version < 2 {
            self.visible_object_columns.push(ObjectColumn::Target);
            self.visible_object_columns.push(ObjectColumn::Selector);
        }
        if self.object_column_schema_version < 3 {
            self.visible_object_columns.push(ObjectColumn::IngressClass);
        }
        self.object_column_schema_version = OBJECT_COLUMN_SCHEMA_VERSION;
    }
}


pub open spec fn in_context(c: Seq<char>) -> spec_fn(FavoriteView) -> bool {
    |f: FavoriteView| f.context == c
}

pub open spec fn differs_from_favorite(f: FavoriteView) -> spec_fn(FavoriteView) -> bool {
    |g: FavoriteView| g != f
}

/// The favourites after toggling `t`: removed if pinned (in every copy),
/// added if not, then cleaned up.
pub open spec fn toggled_favorites(favorites: Seq<FavoriteView>, t: crate::favorite::TargetView) -> Seq<FavoriteView> {
    let f = favorite_of(t);
    let rest = favorites.filter(differs_from_favorite(f));
    normalized_favorites(if rest.len() == favorites.len() { rest.push(f) } else { rest })
}

/// `s` and `t` agree on everything but the favourites.
pub open spec fn same_except_favorites(s: StoreView, t: StoreView) -> bool {
    &&& s.projects == t.projects
    &&& s.selected == t.selected
    &&& s.last_namespaces == t.last_namespaces
    &&& s.schema_version == t.schema_version
    &&& s.columns == t.columns
    &&& s.name_width == t.name_width
    &&& s.widths == t.widths
}

/// `s` and `t` agree on everything but the remembered namespaces.
pub open spec fn same_except_last_namespaces(s: StoreView, t: StoreView) -> bool {
    &&& s.projects == t.projects
    &&& s.selected == t.selected
    &&& s.schema_version == t.schema_version
    &&& s.columns == t.columns
    &&& s.name_width == t.name_width
    &&& s.widths == t.widths
    &&& s.favorites == t.favorites
}

pub open spec fn selection_contexts(es: Seq<SelectionView>) -> Seq<Seq<char>> {
    es.map_values(|e: SelectionView| e.context)
}

/// The namespace remembered for context `c` by the first entry for it.
pub open spec fn remembered_namespace(es: Seq<SelectionView>, c: Seq<char>) -> Option<Seq<char>> {
    let i = first_index(selection_contexts(es), c);
    if i < es.len() {
        Some(es[i].namespace)
    } else {
        None
    }
}

pub open spec fn clean_selection_fn() -> spec_fn(SelectionView) -> SelectionView {
    |e: SelectionView| SelectionView { context: trimmed(e.context), namespace: trimmed(e.namespace) }
}

pub open spec fn selection_kept_fn() -> spec_fn(SelectionView) -> bool {
    |e: SelectionView| trimmed(e.context).len() > 0 && trimmed(e.namespace).len() > 0
}

pub open spec fn selection_context_fn() -> spec_fn(SelectionView) -> Seq<char> {
    |e: SelectionView| e.context
}

/// `r` is the remembered namespaces `es` cleaned up: trimmed, without blank
/// ones, one per context (the first given), in context order.
pub open spec fn normalized_selections(r: Seq<SelectionView>, es: Seq<SelectionView>) -> bool {
    first_per_key(r, es, selection_kept_fn(), clean_selection_fn(), selection_context_fn(), text_order())
}

/// What remembering `namespace` for `context` does, both trimmed: nothing
/// when either is blank; else the first entry for the context takes the
/// namespace, or a new entry is added and the list cleaned up. Whether
/// anything changed.
pub open spec fn sets_last_namespace(
    before: StoreView,
    after: StoreView,
    context: Seq<char>,
    namespace: Seq<char>,
    r: bool,
) -> bool {
    let es = before.last_namespaces;
    let c = trimmed(context);
    let n = trimmed(namespace);
    let i = first_index(selection_contexts(es), c);
    &&& same_except_last_namespaces(after, before)
    &&& (c.len() == 0 || n.len() == 0) ==> !r && after.last_namespaces == es
    &&& c.len() > 0 && n.len() > 0 && i < es.len() ==> r == (es[i].namespace != n)
        && after.last_namespaces == es.update(i, SelectionView { context: c, namespace: n })
    &&& c.len() > 0 && n.len() > 0 && i == es.len() ==> r && normalized_selections(
        after.last_namespaces,
        es.push(SelectionView { context: c, namespace: n }),
    )
}

pub open spec fn context_names(contexts: Seq<ContextInfo>) -> Seq<Seq<char>> {
    contexts.map_values(|c: ContextInfo| c.name@)
}

pub open spec fn selection_in(names: Seq<Seq<char>>) -> spec_fn(SelectionView) -> bool {
    |e: SelectionView| names.contains(e.context)
}

/// The remembered namespaces that clean-up starts from: with a non-empty
/// list of live contexts, only those of live contexts.
pub open spec fn live_selections(es: Seq<SelectionView>, contexts: Seq<ContextInfo>) -> Seq<SelectionView> {
    if contexts.len() > 0 {
        es.filter(selection_in(context_names(contexts)))
    } else {
        es
    }
}

/// What adding `contexts` to the selected project does: its contexts
/// become, with the added ones trimmed and without blank ones, sorted
/// without duplicates; nothing happens without a selected project.
pub open spec fn adds_contexts(before: StoreView, after: StoreView, contexts: Seq<Seq<char>>) -> bool {
    let i = selected_index(before);
    let ps = before.projects;
    &&& i == ps.len() ==> after == before
    &&& i < ps.len() ==> after.projects == ps.update(
        i,
        ProjectView { contexts: sorted_set(ps[i].contexts + cleaned_contexts(contexts)), ..ps[i] },
    ) && after.selected == before.selected && same_except_projects(after, before)
}

/// What taking `context` out of the selected project does: the context and
/// its hand-added namespaces go; nothing happens without a selected project.
pub open spec fn removes_context(before: StoreView, after: StoreView, context: Seq<char>) -> bool {
    let i = selected_index(before);
    let ps = before.projects;
    &&& i == ps.len() ==> after == before
    &&& i < ps.len() ==> after.projects == ps.update(
        i,
        ProjectView {
            name: ps[i].name,
            contexts: ps[i].contexts.filter(other_context(context)),
            custom: ps[i].custom.filter(entry_not_in(context)),
        },
    ) && after.selected == before.selected && same_except_projects(after, before)
}

/// Whether `name` is the name of one of `contexts`.
pub fn is_live_context(contexts: &[ContextInfo], name: &str) -> (r: bool)
    ensures
        r == context_names(contexts@).contains(name@),
{
    let ghost names = context_names(contexts@);
    let mut i: usize = 0;
    while i < contexts.len()
        invariant
            i <= contexts@.len(),
            names == context_names(contexts@),
            forall|k: int| 0 <= k < i ==> names[k] != name@,
        decreases contexts.len() - i,
    {
        if text_eq(contexts[i].name.as_str(), name) {
            assert(names[i as int] == name@);
            return true;
        }
        i += 1;
    }
    false
}

/// A copy of a remembered namespace.
pub fn copy_selection(e: &ContextNamespaceSelection) -> (r: ContextNamespaceSelection)
    ensures
        r@ == e@,
{
    ContextNamespaceSelection { context: e.context.clone(), namespace: e.namespace.clone() }
}

impl ProjectStore {
    /// The favourites of one context.
    pub fn favorite_objects_for_context(&self, context: &str) -> (r: Vec<ObjectFavorite>)
        ensures
            favorite_views(r@) == self@.favorites.filter(in_context(context@)),
    {
        let ghost fs = self@.favorites;
        let mut out: Vec<ObjectFavorite> = Vec::new();
        let mut i: usize = 0;
        proof {
            reveal(Seq::filter);
            assert(fs.take(0) =~= Seq::<FavoriteView>::empty());
            assert(favorite_views(out@) =~= Seq::<FavoriteView>::empty());
        }
        while i < self.favorite_objects.len()
            invariant
                i <= self.favorite_objects.len(),
                fs == self@.favorites,
                favorite_views(out@) == fs.take(i as int).filter(in_context(context@)),
            decreases self.favorite_objects.len() - i,
        {
            proof {
                reveal(Seq::filter);
                assert(fs.take(i + 1).drop_last() =~= fs.take(i as int));
            }
            if text_eq(self.favorite_objects[i].context.as_str(), context) {
                let f = self.favorite_objects[i].copy();
                out.push(f);
                assert(favorite_views(out@) =~= fs.take(i as int).filter(in_context(context@)).push(fs[i as int]));
            }
            i += 1;
        }
        assert(fs.take(fs.len() as int) =~= fs);
        out
    }

    /// Whether the object `target` is pinned.
    pub fn is_object_favorite(&self, target: &DetailTarget) -> (r: bool)
        ensures
            r == exists|k: int| 0 <= k < self@.favorites.len() && favorite_matches(#[trigger] self@.favorites[k], target@),
    {
        let mut i: usize = 0;
        while i < self.favorite_objects.len()
            invariant
                i <= self.favorite_objects.len(),
                forall|k: int| 0 <= k < i ==> !favorite_matches(#[trigger] self@.favorites[k], target@),
            decreases self.favorite_objects.len() - i,
        {
            if self.favorite_objects[i].matches_target(target) {
                assert(favorite_matches(self@.favorites[i as int], target@));
                return true;
            }
            i += 1;
        }
        false
    }

    /// Cleans up the favourites: see `normalized_favorites`.
    pub fn normalize_favorite_objects(&mut self)
        ensures
            final(self)@.favorites == normalized_favorites(old(self)@.favorites),
            same_except_favorites(final(self)@, old(self)@),
    {
        let favorites = normalize_favorites(&self.favorite_objects);
        self.favorite_objects = favorites;
    }

    /// Pins the object `target`, or unpins it if it was pinned; always true.
    pub fn toggle_object_favorite(&mut self, target: &DetailTarget) -> (r: bool)
        ensures
            r,
            final(self)@.favorites == toggled_favorites(old(self)@.favorites, target@),
            same_except_favorites(final(self)@, old(self)@),
    {
        let ghost fs = self@.favorites;
        let favorite = ObjectFavorite::from_target(target);
        let ghost f = favorite@;
        let mut rest: Vec<ObjectFavorite> = Vec::new();
        let mut i: usize = 0;
        proof {
            reveal(Seq::filter);
            assert(fs.take(0) =~= Seq::<FavoriteView>::empty());
            assert(favorite_views(rest@) =~= Seq::<FavoriteView>::empty());
        }
        while i < self.favorite_objects.len()
            invariant
                i <= self.favorite_objects.len(),
                fs == self@.favorites,
                f == favorite@,
                favorite_views(rest@) == fs.take(i as int).filter(differs_from_favorite(f)),
            decreases self.favorite_objects.len() - i,
        {
            proof {
                reveal(Seq::filter);
                assert(fs.take(i + 1).drop_last() =~= fs.take(i as int));
            }
            if !self.favorite_objects[i].same_as(&favorite) {
                let g = self.favorite_objects[i].copy();
                rest.push(g);
                assert(favorite_views(rest@) =~= fs.take(i as int).filter(differs_from_favorite(f)).push(fs[i as int]));
            }
            i += 1;
        }
        assert(fs.take(fs.len() as int) =~= fs);
        if rest.len() == self.favorite_objects.len() {
            rest.push(favorite);
            assert(favorite_views(rest@) =~= fs.filter(differs_from_favorite(f)).push(f));
        }
        self.favorite_objects = rest;
        self.normalize_favorite_objects();
        true
    }

    /// The namespace remembered for `context` (none without a context).
    pub fn last_namespace_for_context(&self, context: Option<&str>) -> (r: Option<&str>)
        ensures
            crate::project::optional_text(r) == match crate::project::optional_text(context) {
                Some(c) => remembered_namespace(self@.last_namespaces, c),
                None => None,
            },
    {
        match context {
            None => None,
            Some(c) => {
                let ghost cs = selection_contexts(self@.last_namespaces);
                let mut i: usize = 0;
                while i < self.last_namespaces_by_context.len() && !text_eq(self.last_namespaces_by_context[i].context.as_str(), c)
                    invariant
                        i <= self.last_namespaces_by_context.len(),
                        cs == selection_contexts(self@.last_namespaces),
                        forall|k: int| 0 <= k < i ==> cs[k] != c@,
                    decreases self.last_namespaces_by_context.len() - i,
                {
                    i += 1;
                }
                proof {
                    lemma_first_index_at(cs, c@, i as int);
                }
                if i < self.last_namespaces_by_context.len() {
                    Some(self.last_namespaces_by_context[i].namespace.as_str())
                } else {
                    None
                }
            },
        }
    }

    /// Cleans up the remembered namespaces; with a non-empty list of live
    /// contexts, forgets those of other contexts first.
    pub fn normalize_last_namespaces(&mut self, contexts: &[ContextInfo])
        ensures
            normalized_selections(final(self)@.last_namespaces, live_selections(old(self)@.last_namespaces, contexts@)),
            same_except_last_namespaces(final(self)@, old(self)@),
    {
        let ghost es0 = self@.last_namespaces;
        let ghost es = live_selections(es0, contexts@);
        let mut live: Vec<ContextNamespaceSelection> = Vec::new();
        if contexts.len() > 0 {
            let mut i: usize = 0;
            proof {
                reveal(Seq::filter);
                assert(es0.take(0) =~= Seq::<SelectionView>::empty());
                assert(selection_views(live@) =~= Seq::<SelectionView>::empty());
            }
            while i < self.last_namespaces_by_context.len()
                invariant
                    i <= self.last_namespaces_by_context.len(),
                    es0 == self@.last_namespaces,
                    selection_views(live@) == es0.take(i as int).filter(selection_in(context_names(contexts@))),
                decreases self.last_namespaces_by_context.len() - i,
            {
                proof {
                    reveal(Seq::filter);
                    assert(es0.take(i + 1).drop_last() =~= es0.take(i as int));
                }
                if is_live_context(contexts, self.last_namespaces_by_context[i].context.as_str()) {
                    let e = copy_selection(&self.last_namespaces_by_context[i]);
                    live.push(e);
                    assert(selection_views(live@) =~= es0.take(i as int).filter(selection_in(context_names(contexts@))).push(es0[i as int]));
                }
                i += 1;
            }
            assert(es0.take(es0.len() as int) =~= es0);
        } else {
            let mut i: usize = 0;
            while i < self.last_namespaces_by_context.len()
                invariant
                    i <= self.last_namespaces_by_context.len(),
                    es0 == self@.last_namespaces,
                    selection_views(live@) == es0.take(i as int),
                decreases self.last_namespaces_by_context.len() - i,
            {
                let e = copy_selection(&self.last_namespaces_by_context[i]);
                let ghost before = live@;
                live.push(e);
                assert(live@ == before.push(e));
                assert(es0[i as int] == e@);
                assert(selection_views(live@) =~= selection_views(before).push(e@));
                assert(es0.take(i + 1) =~= es0.take(i as int).push(es0[i as int]));
                i += 1;
            }
            assert(es0.take(es0.len() as int) =~= es0);
        }
        assert(selection_views(live@) == es);
        let mut out: Vec<ContextNamespaceSelection> = Vec::new();
        let mut i: usize = 0;
        proof {
            lemma_text_order();
            lemma_first_per_key_empty(selection_kept_fn(), clean_selection_fn(), selection_context_fn(), text_order());
            assert(es.take(0) =~= Seq::<SelectionView>::empty());
            assert(selection_views(out@) =~= Seq::<SelectionView>::empty());
        }
        while i < live.len()
            invariant
                i <= live.len(),
                es == selection_views(live@),
                normalized_selections(selection_views(out@), es.take(i as int)),
            decreases live.len() - i,
        {
            let ghost r = selection_views(out@);
            let context = trim(live[i].context.as_str());
            let namespace = trim(live[i].namespace.as_str());
            let mut p: usize = 0;
            while p < out.len() && text_lt(out[p].context.as_str(), context.as_str())
                invariant
                    p <= out.len(),
                    r == selection_views(out@),
                    forall|k: int| 0 <= k < p ==> text_less(#[trigger] r[k].context, context@),
                decreases out.len() - p,
            {
                p += 1;
            }
            proof {
                lemma_text_order();
                lemma_first_per_key_step(r, es.take(i as int), es[i as int], selection_kept_fn(), clean_selection_fn(), selection_context_fn(), text_order(), p as int);
                assert(es.take(i as int).push(es[i as int]) =~= es.take(i + 1));
            }
            let present = p < out.len() && out[p].context == context;
            if !context.as_str().is_empty() && !namespace.as_str().is_empty() && !present {
                out.insert(p, ContextNamespaceSelection { context, namespace });
                assert(selection_views(out@) =~= r.insert(p as int, (clean_selection_fn())(es[i as int])));
            }
            i += 1;
        }
        assert(es.take(es.len() as int) =~= es);
        self.last_namespaces_by_context = out;
    }

    /// Remembers `namespace` as the one last selected in `context`, both
    /// trimmed; refused when either is blank. The first entry for the
    /// context is updated; without one, an entry is added and the remembered
    /// namespaces are cleaned up. Whether anything changed.
    pub fn set_last_namespace_for_context(&mut self, context: &str, namespace: &str) -> (r: bool)
        ensures
            sets_last_namespace(old(self)@, final(self)@, context@, namespace@, r),
    {
        let ghost es = self@.last_namespaces;
        let ghost cs = selection_contexts(es);
        let context = trim(context);
        let namespace = trim(namespace);
        if context.as_str().is_empty() || namespace.as_str().is_empty() {
            return false;
        }
        let mut i: usize = 0;
        while i < self.last_namespaces_by_context.len() && !(self.last_namespaces_by_context[i].context == context)
            invariant
                i <= self.last_namespaces_by_context.len(),
                es == self@.last_namespaces,
                cs == selection_contexts(es),
                forall|k: int| 0 <= k < i ==> cs[k] != context@,
            decreases self.last_namespaces_by_context.len() - i,
        {
            i += 1;
        }
        proof {
            lemma_first_index_at(cs, context@, i as int);
        }
        if i < self.last_namespaces_by_context.len() {
            if self.last_namespaces_by_context[i].namespace == namespace {
                assert(es.update(i as int, SelectionView { context: context@, namespace: namespace@ }) =~= es);
                return false;
            }
            self.last_namespaces_by_context.set(i, ContextNamespaceSelection { context, namespace });
            assert(self@.last_namespaces =~= es.update(i as int, SelectionView { context: context@, namespace: namespace@ }));
            return true;
        }
        let ghost added = SelectionView { context: context@, namespace: namespace@ };
        self.last_namespaces_by_context.push(ContextNamespaceSelection { context, namespace });
        assert(self@.last_namespaces =~= es.push(added));
        self.normalize_last_namespaces(&[]);
        proof {
            assert(live_selections(es.push(added), Seq::<ContextInfo>::empty()) == es.push(added));
        }
        true
    }
}


pub open spec fn named_in(names: Seq<Seq<char>>) -> spec_fn(Seq<char>) -> bool {
    |c: Seq<char>| names.contains(c)
}

pub open spec fn entry_in(contexts: Seq<Seq<char>>) -> spec_fn(NamespacesView) -> bool {
    |e: NamespacesView| contexts.contains(e.context)
}

/// The contexts of `p` that clean-up keeps: with a non-empty list of live
/// contexts, only the live ones.
pub open spec fn pruned_contexts(p: ProjectView, contexts: Seq<ContextInfo>) -> Seq<Seq<char>> {
    if contexts.len() > 0 {
        p.contexts.filter(named_in(context_names(contexts)))
    } else {
        p.contexts
    }
}

/// The hand-added namespaces of `p` that clean-up keeps: with a non-empty
/// list of live contexts, only those of contexts that `p` keeps.
pub open spec fn pruned_custom(p: ProjectView, contexts: Seq<ContextInfo>) -> Seq<NamespacesView> {
    if contexts.len() > 0 {
        p.custom.filter(entry_in(pruned_contexts(p, contexts)))
    } else {
        p.custom
    }
}

/// `r` is the project `p` cleaned up against the live `contexts`.
pub open spec fn project_normalized(r: ProjectView, p: ProjectView, contexts: Seq<ContextInfo>) -> bool {
    &&& r.name == p.name
    &&& r.contexts == sorted_set(pruned_contexts(p, contexts))
    &&& normalized_entries(r.custom, pruned_custom(p, contexts))
}

/// The selection after clean-up: kept if it names a project, else the
/// first project, if any.
pub open spec fn normalized_selection(projects: Seq<ProjectView>, selected: Option<Seq<char>>) -> Option<Seq<char>> {
    match selected {
        Some(s) if project_names(projects).contains(s) => selected,
        _ => if projects.len() > 0 { Some(projects[0].name) } else { None },
    }
}

/// The projects and selection of `after` are those of `before` cleaned up
/// against the live `contexts`.
pub open spec fn contexts_normalized(after: StoreView, before: StoreView, contexts: Seq<ContextInfo>) -> bool {
    &&& after.projects.len() == before.projects.len()
    &&& forall|k: int| 0 <= k < before.projects.len() ==> project_normalized(#[trigger] after.projects[k], before.projects[k], contexts)
    &&& after.selected == normalized_selection(before.projects, before.selected)
}

/// `s` and `t` agree on everything but the projects and the selection.
pub open spec fn same_except_projects(s: StoreView, t: StoreView) -> bool {
    &&& s.last_namespaces == t.last_namespaces
    &&& s.schema_version == t.schema_version
    &&& s.columns == t.columns
    &&& s.name_width == t.name_width
    &&& s.widths == t.widths
    &&& s.favorites == t.favorites
}

/// The non-blank contexts of `cs`, trimmed.
pub open spec fn cleaned_contexts(cs: Seq<Seq<char>>) -> Seq<Seq<char>>
    decreases cs.len(),
{
    if cs.len() == 0 {
        Seq::empty()
    } else if trimmed(cs.last()).len() > 0 {
        cleaned_contexts(cs.drop_last()).push(trimmed(cs.last()))
    } else {
        cleaned_contexts(cs.drop_last())
    }
}

pub open spec fn other_context(c: Seq<char>) -> spec_fn(Seq<char>) -> bool {
    |x: Seq<char>| x != c
}

pub open spec fn entry_not_in(c: Seq<char>) -> spec_fn(NamespacesView) -> bool {
    |e: NamespacesView| e.context != c
}

/// Whether `x` is one of `names`.
pub fn is_named_in(names: &Vec<String>, x: &str) -> (r: bool)
    ensures
        r == views(names@).contains(x@),
{
    contains_text(names, x)
}

/// The project `p` cleaned up against the live `contexts`.
pub fn normalize_project(p: &Project, contexts: &[ContextInfo]) -> (r: Project)
    ensures
        project_normalized(r@, p@, contexts@),
{
    let ghost pv = p@;
    let mut kept: Vec<String> = Vec::new();
    let mut i: usize = 0;
    let prune = contexts.len() > 0;
    proof {
        reveal(Seq::filter);
        assert(pv.contexts.take(0) =~= Seq::<Seq<char>>::empty());
        assert(views(kept@) =~= Seq::<Seq<char>>::empty());
    }
    while i < p.contexts.len()
        invariant
            i <= p.contexts.len(),
            pv == p@,
            prune == (contexts@.len() > 0),
            views(kept@) == if prune {
                pv.contexts.take(i as int).filter(named_in(context_names(contexts@)))
            } else {
                pv.contexts.take(i as int)
            },
        decreases p.contexts.len() - i,
    {
        proof {
            reveal(Seq::filter);
            assert(pv.contexts.take(i + 1).drop_last() =~= pv.contexts.take(i as int));
            assert(pv.contexts.take(i + 1) =~= pv.contexts.take(i as int).push(pv.contexts[i as int]));
        }
        if !prune || is_live_context(contexts, p.contexts[i].as_str()) {
            let ghost before = views(kept@);
            kept.push(p.contexts[i].clone());
            assert(views(kept@) =~= before.push(pv.contexts[i as int]));
        }
        i += 1;
    }
    assert(pv.contexts.take(pv.contexts.len() as int) =~= pv.contexts);
    let ghost pc = views(kept@);
    assert(pc == pruned_contexts(pv, contexts@));
    let mut custom: Vec<crate::project::ContextNamespaces> = Vec::new();
    let mut k: usize = 0;
    proof {
        reveal(Seq::filter);
        assert(pv.custom.take(0) =~= Seq::<NamespacesView>::empty());
        assert(entry_views(custom@) =~= Seq::<NamespacesView>::empty());
    }
    while k < p.custom_namespaces_by_context.len()
        invariant
            k <= p.custom_namespaces_by_context.len(),
            pv == p@,
            pc == views(kept@),
            prune == (contexts@.len() > 0),
            entry_views(custom@) == if prune {
                pv.custom.take(k as int).filter(entry_in(pc))
            } else {
                pv.custom.take(k as int)
            },
        decreases p.custom_namespaces_by_context.len() - k,
    {
        proof {
            reveal(Seq::filter);
            assert(pv.custom.take(k + 1).drop_last() =~= pv.custom.take(k as int));
            assert(pv.custom.take(k + 1) =~= pv.custom.take(k as int).push(pv.custom[k as int]));
        }
        if !prune || is_named_in(&kept, p.custom_namespaces_by_context[k].context.as_str()) {
            let ghost before = entry_views(custom@);
            let e = copy_entry(&p.custom_namespaces_by_context[k]);
            custom.push(e);
            assert(entry_views(custom@) =~= before.push(pv.custom[k as int]));
        }
        k += 1;
    }
    assert(pv.custom.take(pv.custom.len() as int) =~= pv.custom);
    let contexts_sorted = sort_dedup(&kept);
    proof {
        lemma_sorted_set(views(kept@));
    }
    let mut r = Project { name: p.name.clone(), contexts: contexts_sorted, custom_namespaces_by_context: custom };
    r.normalize_custom_namespaces();
    r
}

impl ProjectStore {
    /// Cleans up the projects against the live `contexts` of the kubeconfig:
    /// with a non-empty list, contexts that no longer exist leave every
    /// project, with their hand-added namespaces (an empty list is taken for
    /// an unreadable kubeconfig and prunes nothing). Contexts are sorted
    /// without duplicates, hand-added namespaces cleaned up, and a selection
    /// that names no project moves to the first project.
    pub fn normalize_contexts(&mut self, contexts: &[ContextInfo])
        ensures
            contexts_normalized(final(self)@, old(self)@, contexts@),
            same_except_projects(final(self)@, old(self)@),
    {
        let ghost before = self@;
        let selected_exists = match &self.selected_project {
            Some(name) => self.has_project(name.as_str()),
            None => false,
        };
        let mut projects: Vec<Project> = Vec::new();
        let mut i: usize = 0;
        while i < self.projects.len()
            invariant
                i <= self.projects.len(),
                before == self@,
                projects.len() == i,
                forall|k: int| 0 <= k < i ==> project_normalized(#[trigger] project_views(projects@)[k], before.projects[k], contexts@),
            decreases self.projects.len() - i,
        {
            let p = normalize_project(&self.projects[i], contexts);
            let ghost prev = projects@;
            projects.push(p);
            assert(project_views(projects@)[i as int] == p@);
            assert forall|k: int| 0 <= k < i + 1 implies project_normalized(#[trigger] project_views(projects@)[k], before.projects[k], contexts@) by {
                if k < i {
                    assert(project_views(projects@)[k] == project_views(prev)[k]);
                }
            }
            i += 1;
        }
        if !selected_exists {
            self.selected_project = if self.projects.len() > 0 {
                Some(self.projects[0].name.clone())
            } else {
                None
            };
        }
        self.projects = projects;
    }

    /// The position of the selected project, or the number of projects.
    pub fn selected_position(&self) -> (i: usize)
        ensures
            i == selected_index(self@),
    {
        match &self.selected_project {
            Some(name) => find_project(&self.projects, name.as_str()),
            None => self.projects.len(),
        }
    }

    /// Adds `contexts`, trimmed and without blank ones, to the selected
    /// project, keeping its contexts sorted without duplicates; nothing
    /// happens without a selected project.
    pub fn add_contexts_to_selected_project(&mut self, contexts: Vec<String>)
        ensures
            adds_contexts(old(self)@, final(self)@, views(contexts@)),
    {
        let ghost before = self@;
        let i = self.selected_position();
        proof {
            lemma_first_index(project_names(before.projects), before.selected->0);
        }
        if i == self.projects.len() {
            return;
        }
        let ghost cs = views(contexts@);
        let mut all = self.projects[i].contexts.clone();
        let ghost base = views(all@);
        assert(base == before.projects[i as int].contexts);
        let mut k: usize = 0;
        proof {
            assert(cs.take(0) =~= Seq::<Seq<char>>::empty());
            assert(views(all@) =~= base + cleaned_contexts(cs.take(0)));
        }
        while k < contexts.len()
            invariant
                k <= contexts.len(),
                cs == views(contexts@),
                views(all@) == base + cleaned_contexts(cs.take(k as int)),
            decreases contexts.len() - k,
        {
            proof {
                assert(cs.take(k + 1).drop_last() =~= cs.take(k as int));
                assert(cs.take(k + 1).last() == cs[k as int]);
            }
            let t = trim(contexts[k].as_str());
            if !t.as_str().is_empty() {
                let ghost prev = views(all@);
                all.push(t);
                assert(views(all@) =~= prev.push(trimmed(cs[k as int])));
            }
            k += 1;
        }
        assert(cs.take(cs.len() as int) =~= cs);
        let sorted = sort_dedup(&all);
        proof {
            lemma_sorted_set(views(all@));
        }
        let project = Project {
            name: self.projects[i].name.clone(),
            contexts: sorted,
            custom_namespaces_by_context: clone_entries(&self.projects[i].custom_namespaces_by_context),
        };
        self.projects.set(i, project);
        assert(self@.projects =~= before.projects.update(
            i as int,
            ProjectView {
                contexts: sorted_set(before.projects[i as int].contexts + cleaned_contexts(cs)),
                ..before.projects[i as int]
            },
        ));
    }

    /// Takes `context` out of the selected project, with its hand-added
    /// namespaces; nothing happens without a selected project.
    pub fn remove_context_from_selected_project(&mut self, context: &str)
        ensures
            removes_context(old(self)@, final(self)@, context@),
    {
        let ghost before = self@;
        let i = self.selected_position();
        proof {
            lemma_first_index(project_names(before.projects), before.selected->0);
        }
        if i == self.projects.len() {
            return;
        }
        let ghost pv = before.projects[i as int];
        let (contexts, _) = without_text(&self.projects[i].contexts, context);
        let mut custom: Vec<crate::project::ContextNamespaces> = Vec::new();
        let mut k: usize = 0;
        proof {
            reveal(Seq::filter);
            assert(pv.custom.take(0) =~= Seq::<NamespacesView>::empty());
            assert(entry_views(custom@) =~= Seq::<NamespacesView>::empty());
        }
        while k < self.projects[i].custom_namespaces_by_context.len()
            invariant
                i < self.projects.len(),
                before == self@,
                pv == before.projects[i as int],
                k <= self.projects[i as int].custom_namespaces_by_context.len(),
                entry_views(custom@) == pv.custom.take(k as int).filter(entry_not_in(context@)),
            decreases self.projects[i as int].custom_namespaces_by_context.len() - k,
        {
            proof {
                reveal(Seq::filter);
                assert(pv.custom.take(k + 1).drop_last() =~= pv.custom.take(k as int));
            }
            if !text_eq(self.projects[i].custom_namespaces_by_context[k].context.as_str(), context) {
                let ghost prev = entry_views(custom@);
                let e = copy_entry(&self.projects[i].custom_namespaces_by_context[k]);
                custom.push(e);
                assert(entry_views(custom@) =~= prev.push(pv.custom[k as int]));
            }
            k += 1;
        }
        assert(pv.custom.take(pv.custom.len() as int) =~= pv.custom);
        let project = Project { name: self.projects[i].name.clone(), contexts, custom_namespaces_by_context: custom };
        assert(views(contexts@) == pv.contexts.filter(crate::project::differs_from(context@)));
        assert(crate::project::differs_from(context@) == other_context(context@));
        self.projects.set(i, project);
        assert(self@.projects =~= before.projects.update(
            i as int,
            ProjectView {
                name: pv.name,
                contexts: pv.contexts.filter(other_context(context@)),
                custom: pv.custom.filter(entry_not_in(context@)),
            },
        ));
    }
}

/// A copy of a list of hand-added namespace entries.
pub fn clone_entries(es: &Vec<crate::project::ContextNamespaces>) -> (r: Vec<crate::project::ContextNamespaces>)
    ensures
        entry_views(r@) == entry_views(es@),
{
    let mut r: Vec<crate::project::ContextNamespaces> = Vec::new();
    let mut i: usize = 0;
    while i < es.len()
        invariant
            i <= es.len(),
            entry_views(r@) == entry_views(es@).take(i as int),
        decreases es.len() - i,
    {
        let ghost prev = entry_views(r@);
        let e = copy_entry(&es[i]);
        r.push(e);
        assert(entry_views(r@) =~= prev.push(es@[i as int]@));
        assert(entry_views(es@).take(i + 1) =~= entry_views(es@).take(i as int).push(es@[i as int]@));
        i += 1;
    }
    assert(entry_views(es@).take(es.len() as int) =~= entry_views(es@));
    r
}


impl ProjectStore {
    /// The selected project, to change it in place.
    pub fn selected_project_mut(&mut self) -> (r: Option<&mut Project>)
        ensures
            selected_index(old(self)@) == old(self)@.projects.len() ==> r is None && final(self)@ == old(self)@,
            selected_index(old(self)@) < old(self)@.projects.len() ==> r is Some,
            r matches Some(p) ==> (*p)@ == old(self)@.projects[selected_index(old(self)@)]
                && final(self)@.projects == old(self)@.projects.update(selected_index(old(self)@), (*final(p))@),
            final(self)@.selected == old(self)@.selected,
            same_except_projects(final(self)@, old(self)@),
    {
        let i = self.selected_position();
        proof {
            lemma_first_index(project_names(self@.projects), self@.selected->0);
        }
        if i < self.projects.len() {
            Some(&mut self.projects[i])
        } else {
            None
        }
    }
}


/// The shown columns of a save made under column schema `v`, brought up to
/// date: columns added since are shown.
pub open spec fn migrated_columns(v: int, c0: Seq<ObjectColumn>) -> Seq<ObjectColumn> {
    let c1 = if v < 1 && !c0.contains(ObjectColumn::Image) { c0.push(ObjectColumn::Image) } else { c0 };
    let c2 = if v < 2 { c1.push(ObjectColumn::Target).push(ObjectColumn::Selector) } else { c1 };
    if v < 3 { c2.push(ObjectColumn::IngressClass) } else { c2 }
}

/// A remembered name width raised to the minimum, forgotten when default.
pub open spec fn normalized_name_width(w: Option<int>) -> Option<int> {
    match w {
        Some(v) => {
            let x = if v < OBJECT_NAME_MIN_WIDTH { OBJECT_NAME_MIN_WIDTH as int } else { v };
            if x != OBJECT_NAME_WIDTH { Some(x) } else { None }
        },
        None => None,
    }
}

/// `r` is the saved store `s` as loaded against the live `contexts`: columns
/// migrated and put in order, widths, favourites, projects and remembered
/// namespaces cleaned up.
pub open spec fn loaded_store(r: StoreView, s: StoreView, contexts: Seq<ContextInfo>) -> bool {
    &&& r.columns == all_columns().filter(shown_in(migrated_columns(s.schema_version, s.columns)))
    &&& r.schema_version == OBJECT_COLUMN_SCHEMA_VERSION
    &&& normalized_widths(r.widths, s.widths)
    &&& r.name_width == normalized_name_width(s.name_width)
    &&& r.favorites == normalized_favorites(s.favorites)
    &&& contexts_normalized(r, s, contexts)
    &&& normalized_selections(r.last_namespaces, live_selections(s.last_namespaces, contexts))
}

impl ProjectStore {
    /// The store to start with: the empty store when nothing was saved, else
    /// the saved store cleaned up against the live `contexts`.
    pub fn load(stored: Option<ProjectStore>, contexts: &[ContextInfo]) -> (r: ProjectStore)
        ensures
            match stored {
                Some(s) => loaded_store(r@, s@, contexts@),
                None => r@ == empty_store(),
            },
    {
        match stored {
            None => ProjectStore::empty(),
            Some(mut store) => {
                store.migrate_object_columns();
                store.normalize_object_columns();
                store.normalize_object_column_widths();
                store.normalize_object_name_width();
                store.normalize_favorite_objects();
                store.normalize_contexts(contexts);
                store.normalize_last_namespaces(contexts);
                store
            },
        }
    }
}

impl Default for ProjectStore {
    fn default() -> (r: ProjectStore)
        ensures
            r@ == default_store(),
    {
        ProjectStore::with_default_project()
    }
}

} // verus!
