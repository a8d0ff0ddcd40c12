//! The Pod that a log stream or a terminal is opened on, and which of its
//! containers is picked first.

use vstd::prelude::*;
use crate::order::text_eq;
use crate::resource::{ResourceKind, ResourceView};
use crate::sorted::{first_where, lemma_first_where_at, views};
use crate::text::{has_prefix, push_str, starts_with};

verus! {

/// A Pod to stream logs from or open a terminal in.
#[derive(Debug, Clone)]
pub struct PodLogTarget {
    pub context: String,
    pub namespace: String,
    pub pod: String,
    pub containers: Vec<String>,
}

pub struct PodTargetView {
    pub context: Seq<char>,
    pub namespace: Seq<char>,
    pub pod: Seq<char>,
    pub containers: Seq<Seq<char>>,
}

impl View for PodLogTarget {
    type V = PodTargetView;

    open spec fn view(&self) -> PodTargetView {
        PodTargetView {
            context: self.context@,
            namespace: self.namespace@,
            pod: self.pod@,
            containers: views(self.containers@),
        }
    }
}

/// The log target of object `pod` of kind `resource`: only core Pods have
/// logs, and only in a real namespace (not blank, not the "-" placeholder).
/// Its containers are filled in later.
pub open spec fn pod_target_of(
    context: Seq<char>,
    resource: ResourceView,
    namespace: Option<Seq<char>>,
    pod: Seq<char>,
) -> Option<PodTargetView> {
    if resource.kind != "Pod"@ || resource.group.len() != 0 {
        None
    } else {
        match namespace {
            Some(n) => if n.len() > 0 && n != "-"@ {
                Some(PodTargetView { context, namespace: n, pod, containers: Seq::empty() })
            } else {
                None
            },
            None => None,
        }
    }
}

pub open spec fn pod_target_view(t: Option<PodLogTarget>) -> Option<PodTargetView> {
    match t {
        Some(x) => Some(x@),
        None => None,
    }
}

/// The log target for an object, when it is a Pod in a namespace.
pub fn pod_log_target(
    context: String,
    resource: &ResourceKind,
    namespace: Option<String>,
    pod: String,
) -> (r: Option<PodLogTarget>)
    ensures
        pod_target_view(r) == pod_target_of(
            context@,
            resource@,
            crate::favorite::optional_view(namespace),
            pod@,
        ),
{
    if !text_eq(resource.kind.as_str(), "Pod") || !resource.group.as_str().is_empty() {
        return None;
    }
    match namespace {
        Some(n) => {
            if n.as_str().is_empty() || text_eq(n.as_str(), "-") {
                None
            } else {
                let containers: Vec<String> = Vec::new();
                assert(views(containers@) =~= Seq::<Seq<char>>::empty());
                Some(PodLogTarget { context, namespace: n, pod, containers })
            }
        },
        None => None,
    }
}

/// Container `c` belongs to Pod `pod` by name: the Pod is named after it,
/// or after it followed by a dash (as controllers name their Pods).
pub open spec fn names_container(pod: Seq<char>) -> spec_fn(Seq<char>) -> bool {
    |c: Seq<char>| c == pod || has_prefix(pod, c + "-"@)
}

/// The container shown first for Pod `pod`: the first one that the Pod is
/// named after, else the first one.
pub open spec fn default_container_index(pod: Seq<char>, containers: Seq<Seq<char>>) -> int {
    let i = first_where(containers, names_container(pod));
    if i < containers.len() {
        i
    } else {
        0
    }
}

/// The index of the container shown first for Pod `pod`.
pub fn default_log_container_index(pod: &str, containers: &[String]) -> (r: usize)
    ensures
        r == default_container_index(pod@, views(containers@)),
{
    let ghost cs = views(containers@);
    let mut i: usize = 0;
    while i < containers.len()
        invariant
            i <= containers.len(),
            cs == views(containers@),
            forall|k: int| 0 <= k < i ==> !names_container(pod@)(#[trigger] cs[k]),
        decreases containers.len() - i,
    {
        let mut prefix = containers[i].clone();
        push_str(&mut prefix, "-");
        if text_eq(containers[i].as_str(), pod) || starts_with(pod, prefix.as_str()) {
            proof {
                lemma_first_where_at(cs, names_container(pod@), i as int);
            }
            return i;
        }
        i += 1;
    }
    proof {
        lemma_first_where_at(cs, names_container(pod@), i as int);
    }
    0
}

/// The container a terminal opens in: the one shown first, when the Pod has
/// any containers.
pub fn default_terminal_container(target: &PodLogTarget) -> (r: Option<String>)
    ensures
        target@.containers.len() == 0 ==> r is None,
        target@.containers.len() > 0 ==> r is Some && r->0@ == target@.containers[default_container_index(
            target@.pod,
            target@.containers,
        )],
{
    let i = default_log_container_index(target.pod.as_str(), target.containers.as_slice());
    if i < target.containers.len() {
        Some(target.containers[i].clone())
    } else {
        None
    }
}

} // verus!
