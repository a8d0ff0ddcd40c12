//! Which controls of the main window can be used in a given state, the
//! cluster opened first, and the text of a status cell.

use vstd::prelude::*;
use crate::resource::{is_deployment, is_deployment_resource, is_node, is_node_resource, ResourceKind};
use crate::store::ContextInfo;
use crate::text::{decimal, push_str, u128_text};

verus! {

/// What the window is doing, as far as its controls care.
pub struct WindowState<'a> {
    /// A cluster is selected.
    pub has_context: bool,
    /// Something is being loaded.
    pub loading: bool,
    /// The resource kind selected in the sidebar.
    pub resource: Option<&'a ResourceKind>,
    /// The cluster list shows at least one cluster.
    pub has_visible_contexts: bool,
    /// The resource kind of the object shown in the detail pane.
    pub detail_resource: Option<&'a ResourceKind>,
    /// How many containers the terminal can open into, when it has a pod.
    pub exec_containers: Option<usize>,
}

/// Whether each control can be used.
pub struct ControlSensitivity {
    pub refresh: bool,
    pub create_yaml: bool,
    pub search: bool,
    pub status_filters: bool,
    pub column_filters: bool,
    pub cluster_back: bool,
    pub cluster_menu: bool,
    pub cluster_refresh: bool,
    pub add_cluster: bool,
    pub import_cluster: bool,
    pub add_project: bool,
    pub namespace_menu: bool,
    pub custom_namespace: bool,
    pub rename_namespace: bool,
    pub project_create: bool,
    pub detail_apply: bool,
    pub detail_download_yaml: bool,
    pub detail_explain_yaml: bool,
    pub detail_delete: bool,
    pub detail_favorite: bool,
    pub detail_terminal: bool,
    pub detail_scale: bool,
    pub detail_cordon: bool,
    pub detail_drain: bool,
    pub create_yaml_apply: bool,
}

/// Which controls can be used: those that act on a cluster need one and
/// nothing loading; the namespace menu also needs a namespaced kind (or no
/// kind); the detail actions need an object, the terminal a container,
/// scaling a Deployment and cordon and drain a Node.
pub fn control_sensitivity(state: &WindowState) -> (r: ControlSensitivity)
    ensures
        r.refresh == (state.has_context && !state.loading),
        r.create_yaml == (state.has_context && state.resource is Some && !state.loading),
        r.search == (state.has_context && !state.loading),
        r.status_filters == (state.has_context && !state.loading),
        r.column_filters == (state.has_context && !state.loading),
        r.cluster_back,
        r.cluster_menu == state.has_context,
        r.cluster_refresh == (!state.loading && state.has_visible_contexts),
        r.add_cluster == !state.loading,
        r.import_cluster == !state.loading,
        r.add_project == !state.loading,
        r.namespace_menu == (state.has_context && !state.loading && match state.resource {
            Some(k) => k@.namespaced,
            None => true,
        }),
        r.custom_namespace == !state.loading,
        r.rename_namespace == !state.loading,
        r.project_create == !state.loading,
        r.detail_apply == (state.detail_resource is Some && !state.loading),
        r.detail_download_yaml == (state.detail_resource is Some && !state.loading),
        r.detail_explain_yaml == (state.detail_resource is Some && !state.loading),
        r.detail_delete == (state.detail_resource is Some && !state.loading),
        r.detail_favorite == (state.detail_resource is Some && !state.loading),
        r.detail_terminal == (match state.exec_containers {
            Some(n) => n > 0,
            None => false,
        } && !state.loading),
        r.detail_scale == (match state.detail_resource {
            Some(k) => is_deployment(k@),
            None => false,
        } && !state.loading),
        r.detail_cordon == (match state.detail_resource {
            Some(k) => is_node(k@),
            None => false,
        } && !state.loading),
        r.detail_drain == (match state.detail_resource {
            Some(k) => is_node(k@),
            None => false,
        } && !state.loading),
        r.create_yaml_apply == !state.loading,
{
    let idle = !state.loading;
    let on_cluster = state.has_context && idle;
    let namespaced = match state.resource {
        Some(k) => k.is_namespaced(),
        None => true,
    };
    let has_object = state.detail_resource.is_some() && idle;
    let has_container = match state.exec_containers {
        Some(n) => n > 0,
        None => false,
    };
    let (deployment, node) = match state.detail_resource {
        Some(k) => (is_deployment_resource(k), is_node_resource(k)),
        None => (false, false),
    };
    ControlSensitivity {
        refresh: on_cluster,
        create_yaml: on_cluster && state.resource.is_some(),
        search: on_cluster,
        status_filters: on_cluster,
        column_filters: on_cluster,
        cluster_back: true,
        cluster_menu: state.has_context,
        cluster_refresh: idle && state.has_visible_contexts,
        add_cluster: idle,
        import_cluster: idle,
        add_project: idle,
        namespace_menu: on_cluster && namespaced,
        custom_namespace: idle,
        rename_namespace: idle,
        project_create: idle,
        detail_apply: has_object,
        detail_download_yaml: has_object,
        detail_explain_yaml: has_object,
        detail_delete: has_object,
        detail_favorite: has_object,
        detail_terminal: has_container && idle,
        detail_scale: deployment && idle,
        detail_cordon: node && idle,
        detail_drain: node && idle,
        create_yaml_apply: idle,
    }
}

/// The position of the cluster opened first among `visible`: the current
/// context of the kubeconfig, else the first one.
pub open spec fn initial_context_index(visible: Seq<ContextInfo>) -> int {
    if exists|i: int| 0 <= i < visible.len() && visible[i].is_current {
        choose|i: int|
            0 <= i < visible.len() && visible[i].is_current && forall|m: int|
                0 <= m < i ==> !(#[trigger] visible[m]).is_current
    } else {
        0
    }
}

/// The name of the cluster opened first: the first visible context that is
/// the kubeconfig's current one, else the first visible context; none when
/// no context is visible.
pub fn initial_context(visible: &[ContextInfo]) -> (r: Option<String>)
    ensures
        visible@.len() == 0 ==> r is None,
        visible@.len() > 0 ==> {
            let i = initial_context_index(visible@);
            &&& 0 <= i < visible@.len()
            &&& r is Some && r->0@ == visible@[i].name@
            &&& forall|m: int| 0 <= m < i ==> !(#[trigger] visible@[m]).is_current
            &&& (visible@[i].is_current || forall|m: int|
                0 <= m < visible@.len() ==> !(#[trigger] visible@[m]).is_current)
        },
{
    let mut i: usize = 0;
    while i < visible.len()
        invariant
            i <= visible.len(),
            forall|m: int| 0 <= m < i ==> !(#[trigger] visible@[m]).is_current,
        decreases visible.len() - i,
    {
        if visible[i].is_current {
            proof {
                let w = i as int;
                assert(0 <= w < visible@.len() && visible@[w].is_current && forall|m: int|
                    0 <= m < w ==> !(#[trigger] visible@[m]).is_current);
                let c = initial_context_index(visible@);
                if c < w {
                    assert(!visible@[c].is_current);
                }
                if w < c {
                    assert(!visible@[w].is_current);
                }
            }
            return Some(visible[i].name.clone());
        }
        i += 1;
    }
    if visible.len() == 0 {
        None
    } else {
        Some(visible[0].name.clone())
    }
}

/// The text of a status cell and its tooltip: "<ready>/<desired>" with the
/// full status as tooltip when the kind reports a ratio, else nothing.
pub fn status_cell_text(ratio: Option<(u32, u32)>, status: &str) -> (r: (String, Option<String>))
    ensures
        match ratio {
            Some((ready, desired)) => r.0@ == decimal(ready as nat) + "/"@ + decimal(desired as nat)
                && r.1 is Some && r.1->0@ == status@,
            None => r.0@.len() == 0 && r.1 is None,
        },
{
    match ratio {
        Some((ready, desired)) => {
            let mut text = u128_text(ready as u128);
            push_str(&mut text, "/");
            let d = u128_text(desired as u128);
            push_str(&mut text, d.as_str());
            (text, Some(status.to_owned()))
        },
        None => (String::new(), None),
    }
}

} // verus!
