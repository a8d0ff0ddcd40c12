//! Kubernetes resource kinds: how they are grouped in the sidebar, which
//! icon stands for them and which table columns make sense for them.

use vstd::prelude::*;
use crate::columns::{all_columns, lemma_all_columns, ObjectColumn};
use crate::order::text_eq;

verus! {

/// Whether objects of a kind live in a namespace or in the whole cluster.
#[derive(Debug, Clone, Copy, PartialEq, Eq, Structural)]
pub enum ResourceScope {
    Namespaced,
    Cluster,
}

/// A resource kind that the API server offers.
#[derive(Debug, Clone)]
pub struct ResourceKind {
    pub group: String,
    pub version: String,
    pub api_version: String,
    pub kind: String,
    pub plural: String,
    pub scope: ResourceScope,
}

pub struct ResourceView {
    pub group: Seq<char>,
    pub version: Seq<char>,
    pub api_version: Seq<char>,
    pub kind: Seq<char>,
    pub plural: Seq<char>,
    pub namespaced: bool,
}

impl View for ResourceKind {
    type V = ResourceView;

    open spec fn view(&self) -> ResourceView {
        ResourceView {
            group: self.group@,
            version: self.version@,
            api_version: self.api_version@,
            kind: self.kind@,
            plural: self.plural@,
            namespaced: self.scope == ResourceScope::Namespaced,
        }
    }
}

impl ResourceKind {
    /// Whether objects of this kind live in a namespace.
    pub fn is_namespaced(&self) -> (r: bool)
        ensures
            r == self@.namespaced,
    {
        match self.scope {
            ResourceScope::Namespaced => true,
            ResourceScope::Cluster => false,
        }
    }
}

/// `s` is one of `options`.
pub open spec fn one_of(s: Seq<char>, options: Seq<Seq<char>>) -> bool {
    options.contains(s)
}

/// Whether `s` is one of the texts in `options`.
pub fn is_one_of(s: &str, options: &[&str]) -> (r: bool)
    ensures
        r == one_of(s@, options@.map_values(|o: &str| o@)),
{
    let ghost opts = options@.map_values(|o: &str| o@);
    let mut i: usize = 0;
    while i < options.len()
        invariant
            i <= options.len(),
            opts == options@.map_values(|o: &str| o@),
            forall|k: int| 0 <= k < i ==> opts[k] != s@,
        decreases options.len() - i,
    {
        if text_eq(s, options[i]) {
            assert(opts[i as int] == s@);
            return true;
        }
        i += 1;
    }
    false
}

pub open spec fn workload_kinds() -> Seq<Seq<char>> {
    seq!["Pod"@, "Deployment"@, "ReplicaSet"@, "StatefulSet"@, "DaemonSet"@, "Job"@, "CronJob"@]
}

pub open spec fn workload_groups() -> Seq<Seq<char>> {
    seq!["apps"@, "batch"@]
}

pub open spec fn network_kinds() -> Seq<Seq<char>> {
    seq!["Service"@, "Ingress"@, "EndpointSlice"@, "NetworkPolicy"@, "Endpoints"@]
}

pub open spec fn network_groups() -> Seq<Seq<char>> {
    seq!["networking.k8s.io"@, "discovery.k8s.io"@]
}

pub open spec fn storage_kinds() -> Seq<Seq<char>> {
    seq![
        "PersistentVolume"@,
        "PersistentVolumeClaim"@,
        "StorageClass"@,
        "CSIDriver"@,
        "CSINode"@,
        "CSIStorageCapacity"@,
        "VolumeAttachment"@,
    ]
}

pub open spec fn configuration_kinds() -> Seq<Seq<char>> {
    seq![
        "ConfigMap"@,
        "Secret"@,
        "ResourceQuota"@,
        "LimitRange"@,
        "HorizontalPodAutoscaler"@,
        "PodDisruptionBudget"@,
        "PriorityClass"@,
    ]
}

pub open spec fn configuration_groups() -> Seq<Seq<char>> {
    seq!["autoscaling"@, "policy"@, "scheduling.k8s.io"@]
}

pub open spec fn access_kinds() -> Seq<Seq<char>> {
    seq![
        "ServiceAccount"@,
        "Role"@,
        "RoleBinding"@,
        "ClusterRole"@,
        "ClusterRoleBinding"@,
        "CertificateSigningRequest"@,
    ]
}

pub open spec fn access_groups() -> Seq<Seq<char>> {
    seq!["rbac.authorization.k8s.io"@, "certificates.k8s.io"@]
}

pub open spec fn cluster_kinds() -> Seq<Seq<char>> {
    seq![
        "Namespace"@,
        "Node"@,
        "ComponentStatus"@,
        "RuntimeClass"@,
        "CustomResourceDefinition"@,
        "APIService"@,
        "MutatingWebhookConfiguration"@,
        "ValidatingWebhookConfiguration"@,
    ]
}

pub open spec fn is_workload(r: ResourceView) -> bool {
    one_of(r.kind, workload_kinds()) || one_of(r.group, workload_groups())
}

pub open spec fn is_network(r: ResourceView) -> bool {
    one_of(r.kind, network_kinds()) || one_of(r.group, network_groups())
}

pub open spec fn is_storage(r: ResourceView) -> bool {
    one_of(r.kind, storage_kinds()) || r.group == "storage.k8s.io"@
}

pub open spec fn is_configuration(r: ResourceView) -> bool {
    one_of(r.kind, configuration_kinds()) || one_of(r.group, configuration_groups())
}

pub open spec fn is_access(r: ResourceView) -> bool {
    one_of(r.kind, access_kinds()) || one_of(r.group, access_groups())
}

pub open spec fn is_cluster(r: ResourceView) -> bool {
    one_of(r.kind, cluster_kinds())
}

pub fn is_workload_resource(resource: &ResourceKind) -> (r: bool)
    ensures
        r == is_workload(resource@),
{
    let kinds = ["Pod", "Deployment", "ReplicaSet", "StatefulSet", "DaemonSet", "Job", "CronJob"];
    let groups = ["apps", "batch"];
    assert(kinds@.map_values(|o: &str| o@) =~= workload_kinds());
    assert(groups@.map_values(|o: &str| o@) =~= workload_groups());
    is_one_of(resource.kind.as_str(), &kinds) || is_one_of(resource.group.as_str(), &groups)
}

pub fn is_network_resource(resource: &ResourceKind) -> (r: bool)
    ensures
        r == is_network(resource@),
{
    let kinds = ["Service", "Ingress", "EndpointSlice", "NetworkPolicy", "Endpoints"];
    let groups = ["networking.k8s.io", "discovery.k8s.io"];
    assert(kinds@.map_values(|o: &str| o@) =~= network_kinds());
    assert(groups@.map_values(|o: &str| o@) =~= network_groups());
    is_one_of(resource.kind.as_str(), &kinds) || is_one_of(resource.group.as_str(), &groups)
}

pub fn is_storage_resource(resource: &ResourceKind) -> (r: bool)
    ensures
        r == is_storage(resource@),
{
    let kinds = [
        "PersistentVolume",
        "PersistentVolumeClaim",
        "StorageClass",
        "CSIDriver",
        "CSINode",
        "CSIStorageCapacity",
        "VolumeAttachment",
    ];
    assert(kinds@.map_values(|o: &str| o@) =~= storage_kinds());
    is_one_of(resource.kind.as_str(), &kinds) || text_eq(resource.group.as_str(), "storage.k8s.io")
}

pub fn is_configuration_resource(resource: &ResourceKind) -> (r: bool)
    ensures
        r == is_configuration(resource@),
{
    let kinds = [
        "ConfigMap",
        "Secret",
        "ResourceQuota",
        "LimitRange",
        "HorizontalPodAutoscaler",
        "PodDisruptionBudget",
        "PriorityClass",
    ];
    let groups = ["autoscaling", "policy", "scheduling.k8s.io"];
    assert(kinds@.map_values(|o: &str| o@) =~= configuration_kinds());
    assert(groups@.map_values(|o: &str| o@) =~= configuration_groups());
    is_one_of(resource.kind.as_str(), &kinds) || is_one_of(resource.group.as_str(), &groups)
}

pub fn is_access_resource(resource: &ResourceKind) -> (r: bool)
    ensures
        r == is_access(resource@),
{
    let kinds = [
        "ServiceAccount",
        "Role",
        "RoleBinding",
        "ClusterRole",
        "ClusterRoleBinding",
        "CertificateSigningRequest",
    ];
    let groups = ["rbac.authorization.k8s.io", "certificates.k8s.io"];
    assert(kinds@.map_values(|o: &str| o@) =~= access_kinds());
    assert(groups@.map_values(|o: &str| o@) =~= access_groups());
    is_one_of(resource.kind.as_str(), &kinds) || is_one_of(resource.group.as_str(), &groups)
}

pub fn is_cluster_resource(resource: &ResourceKind) -> (r: bool)
    ensures
        r == is_cluster(resource@),
{
    let kinds = [
        "Namespace",
        "Node",
        "ComponentStatus",
        "RuntimeClass",
        "CustomResourceDefinition",
        "APIService",
        "MutatingWebhookConfiguration",
        "ValidatingWebhookConfiguration",
    ];
    assert(kinds@.map_values(|o: &str| o@) =~= cluster_kinds());
    is_one_of(resource.kind.as_str(), &kinds)
}

/// The icon of a resource kind, by API group and kind.
pub open spec fn icon_for(group: Seq<char>, kind: Seq<char>) -> Seq<char> {
    if group == ""@ {
        if kind == "Pod"@ {
            "lucide-box-symbolic"@
        } else if kind == "ConfigMap"@ {
            "lucide-file-sliders-symbolic"@
        } else if kind == "Secret"@ {
            "lucide-file-key-2-symbolic"@
        } else if kind == "Namespace"@ {
            "lucide-orbit-symbolic"@
        } else if kind == "Service"@ {
            "lucide-waypoints-symbolic"@
        } else if kind == "Node"@ {
            "lucide-server-symbolic"@
        } else if kind == "PersistentVolume"@ {
            "lucide-hard-drive-download-symbolic"@
        } else if kind == "PersistentVolumeClaim"@ {
            "lucide-hard-drive-upload-symbolic"@
        } else if kind == "Event"@ {
            "dialog-information-symbolic"@
        } else if kind == "ServiceAccount"@ {
            "lucide-user-symbolic"@
        } else {
            "lucide-blocks-symbolic"@
        }
    } else if group == "apps"@ {
        if kind == "ReplicaSet"@ {
            "lucide-layers-2-symbolic"@
        } else if kind == "Deployment"@ {
            "lucide-layers-3-symbolic"@
        } else if kind == "StatefulSet"@ {
            "lucide-database-symbolic"@
        } else if kind == "DaemonSet"@ {
            "lucide-server-cog-symbolic"@
        } else {
            "lucide-blocks-symbolic"@
        }
    } else if group == "batch"@ {
        if kind == "Job"@ {
            "lucide-cloud-cog-symbolic"@
        } else if kind == "CronJob"@ {
            "lucide-timer-reset-symbolic"@
        } else {
            "lucide-blocks-symbolic"@
        }
    } else if group == "networking.k8s.io"@ {
        if kind == "Ingress"@ {
            "lucide-radio-tower-symbolic"@
        } else if kind == "IngressClass"@ {
            "lucide-cast-symbolic"@
        } else if kind == "NetworkPolicy"@ {
            "lucide-globe-lock-symbolic"@
        } else {
            "lucide-blocks-symbolic"@
        }
    } else if group == "events.k8s.io"@ {
        if kind == "Event"@ {
            "dialog-information-symbolic"@
        } else {
            "lucide-blocks-symbolic"@
        }
    } else if group == "apiextensions.k8s.io"@ {
        if kind == "CustomResourceDefinition"@ {
            "lucide-toy-brick-symbolic"@
        } else {
            "lucide-blocks-symbolic"@
        }
    } else if group == "storage.k8s.io"@ {
        if kind == "CSIDriver"@ {
            "lucide-warehouse-symbolic"@
        } else if kind == "CSINode"@ {
            "lucide-cylinder-symbolic"@
        } else if kind == "StorageClass"@ {
            "lucide-import-symbolic"@
        } else {
            "lucide-blocks-symbolic"@
        }
    } else if group == "helm.toolkit.fluxcd.io"@ {
        if kind == "HelmRelease"@ {
            "lucide-package-open-symbolic"@
        } else {
            "lucide-blocks-symbolic"@
        }
    } else if group == "source.toolkit.fluxcd.io"@ {
        if kind == "HelmChart"@ {
            "lucide-map-symbolic"@
        } else if kind == "HelmRepository"@ {
            "lucide-library-symbolic"@
        } else if kind == "GitRepository"@ {
            "lucide-folder-git-symbolic"@
        } else if kind == "Bucket"@ {
            "lucide-paint-bucket-symbolic"@
        } else if kind == "OCIRepository"@ {
            "lucide-container-symbolic"@
        } else {
            "lucide-blocks-symbolic"@
        }
    } else if group == "monitoring.coreos.com"@ {
        if kind == "PodMonitor"@ {
            "lucide-package-search-symbolic"@
        } else {
            "lucide-blocks-symbolic"@
        }
    } else {
        "lucide-blocks-symbolic"@
    }
}

/// The icon that stands for a resource kind.
pub fn resource_icon_name(resource: &ResourceKind) -> (r: &'static str)
    ensures
        r@ == icon_for(resource@.group, resource@.kind),
{
    let group = resource.group.as_str();
    let kind = resource.kind.as_str();
    if text_eq(group, "") {
        if text_eq(kind, "Pod") {
            "lucide-box-symbolic"
        } else if text_eq(kind, "ConfigMap") {
            "lucide-file-sliders-symbolic"
        } else if text_eq(kind, "Secret") {
            "lucide-file-key-2-symbolic"
        } else if text_eq(kind, "Namespace") {
            "lucide-orbit-symbolic"
        } else if text_eq(kind, "Service") {
            "lucide-waypoints-symbolic"
        } else if text_eq(kind, "Node") {
            "lucide-server-symbolic"
        } else if text_eq(kind, "PersistentVolume") {
            "lucide-hard-drive-download-symbolic"
        } else if text_eq(kind, "PersistentVolumeClaim") {
            "lucide-hard-drive-upload-symbolic"
        } else if text_eq(kind, "Event") {
            "dialog-information-symbolic"
        } else if text_eq(kind, "ServiceAccount") {
            "lucide-user-symbolic"
        } else {
            "lucide-blocks-symbolic"
        }
    } else if text_eq(group, "apps") {
        if text_eq(kind, "ReplicaSet") {
            "lucide-layers-2-symbolic"
        } else if text_eq(kind, "Deployment") {
            "lucide-layers-3-symbolic"
        } else if text_eq(kind, "StatefulSet") {
            "lucide-database-symbolic"
        } else if text_eq(kind, "DaemonSet") {
            "lucide-server-cog-symbolic"
        } else {
            "lucide-blocks-symbolic"
        }
    } else if text_eq(group, "batch") {
        if text_eq(kind, "Job") {
            "lucide-cloud-cog-symbolic"
        } else if text_eq(kind, "CronJob") {
            "lucide-timer-reset-symbolic"
        } else {
            "lucide-blocks-symbolic"
        }
    } else if text_eq(group, "networking.k8s.io") {
        if text_eq(kind, "Ingress") {
            "lucide-radio-tower-symbolic"
        } else if text_eq(kind, "IngressClass") {
            "lucide-cast-symbolic"
        } else if text_eq(kind, "NetworkPolicy") {
            "lucide-globe-lock-symbolic"
        } else {
            "lucide-blocks-symbolic"
        }
    } else if text_eq(group, "events.k8s.io") {
        if text_eq(kind, "Event") {
            "dialog-information-symbolic"
        } else {
            "lucide-blocks-symbolic"
        }
    } else if text_eq(group, "apiextensions.k8s.io") {
        if text_eq(kind, "CustomResourceDefinition") {
            "lucide-toy-brick-symbolic"
        } else {
            "lucide-blocks-symbolic"
        }
    } else if text_eq(group, "storage.k8s.io") {
        if text_eq(kind, "CSIDriver") {
            "lucide-warehouse-symbolic"
        } else if text_eq(kind, "CSINode") {
            "lucide-cylinder-symbolic"
        } else if text_eq(kind, "StorageClass") {
            "lucide-import-symbolic"
        } else {
            "lucide-blocks-symbolic"
        }
    } else if text_eq(group, "helm.toolkit.fluxcd.io") {
        if text_eq(kind, "HelmRelease") {
            "lucide-package-open-symbolic"
        } else {
            "lucide-blocks-symbolic"
        }
    } else if text_eq(group, "source.toolkit.fluxcd.io") {
        if text_eq(kind, "HelmChart") {
            "lucide-map-symbolic"
        } else if text_eq(kind, "HelmRepository") {
            "lucide-library-symbolic"
        } else if text_eq(kind, "GitRepository") {
            "lucide-folder-git-symbolic"
        } else if text_eq(kind, "Bucket") {
            "lucide-paint-bucket-symbolic"
        } else if text_eq(kind, "OCIRepository") {
            "lucide-container-symbolic"
        } else {
            "lucide-blocks-symbolic"
        }
    } else if text_eq(group, "monitoring.coreos.com") {
        if text_eq(kind, "PodMonitor") {
            "lucide-package-search-symbolic"
        } else {
            "lucide-blocks-symbolic"
        }
    } else {
        "lucide-blocks-symbolic"
    }
}


/// A group of resource kinds in the sidebar.
#[derive(Debug, Clone, Copy, PartialEq, Eq, Structural)]
pub enum ResourceSection {
    Workloads,
    Network,
    Storage,
    Configuration,
    Access,
    Cluster,
    Custom,
}

/// Whether a resource kind belongs to a section, the catch-all `Custom`
/// section taking every kind that no other section takes.
pub open spec fn section_matches(section: ResourceSection, r: ResourceView) -> bool {
    match section {
        ResourceSection::Workloads => is_workload(r),
        ResourceSection::Network => is_network(r),
        ResourceSection::Storage => is_storage(r),
        ResourceSection::Configuration => is_configuration(r),
        ResourceSection::Access => is_access(r),
        ResourceSection::Cluster => is_cluster(r),
        ResourceSection::Custom => !(is_workload(r) || is_network(r) || is_storage(r)
            || is_configuration(r) || is_access(r) || is_cluster(r)),
    }
}

/// The section a resource kind is listed under: the first section, in
/// sidebar order, that takes it.
pub open spec fn section_for(r: ResourceView) -> ResourceSection {
    if is_workload(r) {
        ResourceSection::Workloads
    } else if is_network(r) {
        ResourceSection::Network
    } else if is_storage(r) {
        ResourceSection::Storage
    } else if is_configuration(r) {
        ResourceSection::Configuration
    } else if is_access(r) {
        ResourceSection::Access
    } else if is_cluster(r) {
        ResourceSection::Cluster
    } else {
        ResourceSection::Custom
    }
}

pub open spec fn section_label(s: ResourceSection) -> Seq<char> {
    match s {
        ResourceSection::Workloads => "Workloads"@,
        ResourceSection::Network => "Network"@,
        ResourceSection::Storage => "Storage"@,
        ResourceSection::Configuration => "Configuration"@,
        ResourceSection::Access => "Access"@,
        ResourceSection::Cluster => "Cluster"@,
        ResourceSection::Custom => "Custom"@,
    }
}

pub open spec fn section_icon(s: ResourceSection) -> Seq<char> {
    match s {
        ResourceSection::Workloads => "grid-large-symbolic"@,
        ResourceSection::Network => "network-transmit-receive-symbolic"@,
        ResourceSection::Storage => "harddisk-symbolic"@,
        ResourceSection::Configuration => "rich-text-symbolic"@,
        ResourceSection::Access => "key-symbolic"@,
        ResourceSection::Cluster => "network-server-symbolic"@,
        ResourceSection::Custom => "puzzle-piece-symbolic"@,
    }
}

pub open spec fn section_fallback_icon(s: ResourceSection) -> Seq<char> {
    match s {
        ResourceSection::Workloads => "applications-system-symbolic"@,
        ResourceSection::Network => "network-workgroup-symbolic"@,
        ResourceSection::Storage => "drive-harddisk-symbolic"@,
        ResourceSection::Configuration => "preferences-system-symbolic"@,
        ResourceSection::Access => "changes-prevent-symbolic"@,
        ResourceSection::Cluster => "network-server-symbolic"@,
        ResourceSection::Custom => "application-x-addon-symbolic"@,
    }
}

impl ResourceSection {
    /// The heading of the section, as the message that the interface translates.
    pub fn label(self) -> (r: &'static str)
        ensures
            r@ == section_label(self),
    {
        match self {
            ResourceSection::Workloads => "Workloads",
            ResourceSection::Network => "Network",
            ResourceSection::Storage => "Storage",
            ResourceSection::Configuration => "Configuration",
            ResourceSection::Access => "Access",
            ResourceSection::Cluster => "Cluster",
            ResourceSection::Custom => "Custom",
        }
    }

    pub fn icon_name(self) -> (r: &'static str)
        ensures
            r@ == section_icon(self),
    {
        match self {
            ResourceSection::Workloads => "grid-large-symbolic",
            ResourceSection::Network => "network-transmit-receive-symbolic",
            ResourceSection::Storage => "harddisk-symbolic",
            ResourceSection::Configuration => "rich-text-symbolic",
            ResourceSection::Access => "key-symbolic",
            ResourceSection::Cluster => "network-server-symbolic",
            ResourceSection::Custom => "puzzle-piece-symbolic",
        }
    }

    pub fn fallback_icon_name(self) -> (r: &'static str)
        ensures
            r@ == section_fallback_icon(self),
    {
        match self {
            ResourceSection::Workloads => "applications-system-symbolic",
            ResourceSection::Network => "network-workgroup-symbolic",
            ResourceSection::Storage => "drive-harddisk-symbolic",
            ResourceSection::Configuration => "preferences-system-symbolic",
            ResourceSection::Access => "changes-prevent-symbolic",
            ResourceSection::Cluster => "network-server-symbolic",
            ResourceSection::Custom => "application-x-addon-symbolic",
        }
    }

    /// Whether `resource` is listed in this section.
    pub fn matches(self, resource: &ResourceKind) -> (r: bool)
        ensures
            r == section_matches(self, resource@),
    {
        match self {
            ResourceSection::Workloads => is_workload_resource(resource),
            ResourceSection::Network => is_network_resource(resource),
            ResourceSection::Storage => is_storage_resource(resource),
            ResourceSection::Configuration => is_configuration_resource(resource),
            ResourceSection::Access => is_access_resource(resource),
            ResourceSection::Cluster => is_cluster_resource(resource),
            ResourceSection::Custom => !(is_workload_resource(resource) || is_network_resource(
                resource,
            ) || is_storage_resource(resource) || is_configuration_resource(resource)
                || is_access_resource(resource) || is_cluster_resource(resource)),
        }
    }

    /// The section that lists `resource`.
    pub fn for_resource(resource: &ResourceKind) -> (r: ResourceSection)
        ensures
            r == section_for(resource@),
            section_matches(r, resource@),
    {
        if is_workload_resource(resource) {
            ResourceSection::Workloads
        } else if is_network_resource(resource) {
            ResourceSection::Network
        } else if is_storage_resource(resource) {
            ResourceSection::Storage
        } else if is_configuration_resource(resource) {
            ResourceSection::Configuration
        } else if is_access_resource(resource) {
            ResourceSection::Access
        } else if is_cluster_resource(resource) {
            ResourceSection::Cluster
        } else {
            ResourceSection::Custom
        }
    }
}

/// Every section, in sidebar order.
pub open spec fn all_sections() -> Seq<ResourceSection> {
    seq![
        ResourceSection::Workloads,
        ResourceSection::Network,
        ResourceSection::Storage,
        ResourceSection::Configuration,
        ResourceSection::Access,
        ResourceSection::Cluster,
        ResourceSection::Custom,
    ]
}

/// Every resource kind that section `s` takes lists under the section.
pub proof fn lemma_section_for_matches(r: ResourceView)
    ensures
        section_matches(section_for(r), r),
        all_sections().contains(section_for(r)),
{
    let s = section_for(r);
    let k = if s == ResourceSection::Workloads {
        0int
    } else if s == ResourceSection::Network {
        1
    } else if s == ResourceSection::Storage {
        2
    } else if s == ResourceSection::Configuration {
        3
    } else if s == ResourceSection::Access {
        4
    } else if s == ResourceSection::Cluster {
        5
    } else {
        6
    };
    assert(all_sections()[k] == s);
}

pub open spec fn resource_views(s: Seq<ResourceKind>) -> Seq<ResourceView> {
    s.map_values(|r: ResourceKind| r@)
}

/// The positions of the resource kinds that section `s` takes, in order.
pub open spec fn section_members(resources: Seq<ResourceView>, s: ResourceSection) -> Seq<int>
    decreases resources.len(),
{
    if resources.len() == 0 {
        Seq::empty()
    } else {
        let m = section_members(resources.drop_last(), s);
        if section_matches(s, resources.last()) {
            m.push(resources.len() - 1)
        } else {
            m
        }
    }
}

/// The sidebar groups of `resources` for `sections`: each section that
/// takes a resource kind, in order, with the positions of its kinds.
pub open spec fn grouped(resources: Seq<ResourceView>, sections: Seq<ResourceSection>) -> Seq<(ResourceSection, Seq<int>)>
    decreases sections.len(),
{
    if sections.len() == 0 {
        Seq::empty()
    } else {
        let g = grouped(resources, sections.drop_last());
        let m = section_members(resources, sections.last());
        if m.len() > 0 {
            g.push((sections.last(), m))
        } else {
            g
        }
    }
}

pub open spec fn group_views(g: Seq<(ResourceSection, Vec<usize>)>) -> Seq<(ResourceSection, Seq<int>)> {
    g.map_values(|e: (ResourceSection, Vec<usize>)| (e.0, e.1@.map_values(|i: usize| i as int)))
}

impl ResourceSection {
    /// Every section, in sidebar order.
    pub fn all() -> (r: Vec<ResourceSection>)
        ensures
            r@ == all_sections(),
    {
        let r = vec![
            ResourceSection::Workloads,
            ResourceSection::Network,
            ResourceSection::Storage,
            ResourceSection::Configuration,
            ResourceSection::Access,
            ResourceSection::Cluster,
            ResourceSection::Custom,
        ];
        assert(r@ =~= all_sections());
        r
    }
}

/// The positions of the resource kinds that `section` takes.
fn members_of(resources: &[ResourceKind], section: ResourceSection) -> (r: Vec<usize>)
    ensures
        r@.map_values(|i: usize| i as int) == section_members(resource_views(resources@), section),
{
    let ghost rv = resource_views(resources@);
    let mut r: Vec<usize> = Vec::new();
    let mut i: usize = 0;
    assert(rv.take(0) =~= Seq::<ResourceView>::empty());
    assert(r@.map_values(|i: usize| i as int) =~= Seq::<int>::empty());
    while i < resources.len()
        invariant
            i <= resources.len(),
            rv == resource_views(resources@),
            r@.map_values(|i: usize| i as int) == section_members(rv.take(i as int), section),
        decreases resources.len() - i,
    {
        proof {
            assert(rv.take(i + 1).drop_last() =~= rv.take(i as int));
            assert(rv.take(i + 1).last() == resources@[i as int]@);
        }
        if section.matches(&resources[i]) {
            let ghost before = r@.map_values(|i: usize| i as int);
            r.push(i);
            assert(r@.map_values(|i: usize| i as int) =~= before.push(i as int));
        }
        i += 1;
    }
    assert(rv.take(resources.len() as int) =~= rv);
    r
}

/// The sidebar groups of `resources`: each section that takes one of them,
/// in sidebar order, with the positions of the kinds it takes.
pub fn grouped_resources(resources: &[ResourceKind]) -> (r: Vec<(ResourceSection, Vec<usize>)>)
    ensures
        group_views(r@) == grouped(resource_views(resources@), all_sections()),
{
    let sections = ResourceSection::all();
    let ghost rv = resource_views(resources@);
    let mut r: Vec<(ResourceSection, Vec<usize>)> = Vec::new();
    let mut k: usize = 0;
    assert(all_sections().take(0) =~= Seq::<ResourceSection>::empty());
    assert(group_views(r@) =~= Seq::<(ResourceSection, Seq<int>)>::empty());
    while k < sections.len()
        invariant
            k <= sections.len(),
            sections@ == all_sections(),
            rv == resource_views(resources@),
            group_views(r@) == grouped(rv, all_sections().take(k as int)),
        decreases sections.len() - k,
    {
        proof {
            assert(all_sections().take(k + 1).drop_last() =~= all_sections().take(k as int));
            assert(all_sections().take(k + 1).last() == sections@[k as int]);
        }
        let members = members_of(resources, sections[k]);
        if members.len() > 0 {
            let ghost before = group_views(r@);
            let ghost mv = members@.map_values(|i: usize| i as int);
            r.push((sections[k], members));
            assert(group_views(r@) =~= before.push((sections@[k as int], mv)));
        }
        k += 1;
    }
    assert(all_sections().take(sections.len() as int) =~= all_sections());
    r
}

proof fn lemma_section_members_contains(resources: Seq<ResourceView>, s: ResourceSection, i: int)
    requires
        0 <= i < resources.len(),
        section_matches(s, resources[i]),
    ensures
        section_members(resources, s).contains(i),
    decreases resources.len(),
{
    let m = section_members(resources.drop_last(), s);
    if i == resources.len() - 1 {
        assert(m.push(i)[m.len() as int] == i);
    } else {
        assert(resources.drop_last()[i] == resources[i]);
        lemma_section_members_contains(resources.drop_last(), s, i);
        let q = choose|q: int| 0 <= q < m.len() && m[q] == i;
        if section_matches(s, resources.last()) {
            assert(m.push(resources.len() - 1)[q] == i);
        }
    }
}

proof fn lemma_grouped_contains(resources: Seq<ResourceView>, sections: Seq<ResourceSection>, s: ResourceSection, i: int)
    requires
        sections.contains(s),
        section_members(resources, s).contains(i),
    ensures
        exists|g: int| 0 <= g < grouped(resources, sections).len()
            && (#[trigger] grouped(resources, sections)[g]).1.contains(i),
    decreases sections.len(),
{
    let prev = grouped(resources, sections.drop_last());
    let m = section_members(resources, sections.last());
    let r = grouped(resources, sections);
    if sections.last() == s {
        assert(m.len() > 0);
        assert(r == prev.push((s, m)));
        assert(r[prev.len() as int].1.contains(i));
    } else {
        let k = choose|k: int| 0 <= k < sections.len() && sections[k] == s;
        assert(sections.drop_last()[k] == s);
        lemma_grouped_contains(resources, sections.drop_last(), s, i);
        let g = choose|g: int| 0 <= g < prev.len() && (#[trigger] prev[g]).1.contains(i);
        if m.len() > 0 {
            assert(r == prev.push((sections.last(), m)));
        }
        assert(r[g] == prev[g]);
        assert(r[g].1.contains(i));
    }
}

/// No resource kind is left out of the sidebar: each one is listed in some
/// group.
pub proof fn lemma_every_resource_grouped(resources: Seq<ResourceView>, i: int)
    requires
        0 <= i < resources.len(),
    ensures
        exists|g: int| 0 <= g < grouped(resources, all_sections()).len()
            && (#[trigger] grouped(resources, all_sections())[g]).1.contains(i),
{
    lemma_section_for_matches(resources[i]);
    lemma_section_members_contains(resources, section_for(resources[i]), i);
    lemma_grouped_contains(resources, all_sections(), section_for(resources[i]), i);
}

pub open spec fn is_deployment(r: ResourceView) -> bool {
    r.kind == "Deployment"@ && r.group == "apps"@
}

pub open spec fn is_node(r: ResourceView) -> bool {
    r.kind == "Node"@ && r.group.len() == 0
}

pub open spec fn is_pod(r: ResourceView) -> bool {
    r.kind == "Pod"@ && r.group.len() == 0
}

/// Kinds whose status shows a ready/desired ratio.
pub open spec fn has_status_ratio(r: ResourceView) -> bool {
    ||| r.group == "apps"@ && one_of(r.kind, seq!["Deployment"@, "StatefulSet"@, "ReplicaSet"@, "DaemonSet"@])
    ||| r.group == "batch"@ && r.kind == "Job"@
}

/// Kinds that metrics are fetched for.
pub open spec fn has_metrics(r: ResourceView) -> bool {
    r.group.len() == 0 && one_of(r.kind, seq!["Pod"@, "Node"@])
}

pub fn is_deployment_resource(resource: &ResourceKind) -> (r: bool)
    ensures
        r == is_deployment(resource@),
{
    text_eq(resource.kind.as_str(), "Deployment") && text_eq(resource.group.as_str(), "apps")
}

pub fn is_node_resource(resource: &ResourceKind) -> (r: bool)
    ensures
        r == is_node(resource@),
{
    text_eq(resource.kind.as_str(), "Node") && resource.group.as_str().is_empty()
}

pub fn supports_status_ratio(resource: &ResourceKind) -> (r: bool)
    ensures
        r == has_status_ratio(resource@),
{
    let apps_kinds = ["Deployment", "StatefulSet", "ReplicaSet", "DaemonSet"];
    assert(apps_kinds@.map_values(|o: &str| o@) =~= seq!["Deployment"@, "StatefulSet"@, "ReplicaSet"@, "DaemonSet"@]);
    (text_eq(resource.group.as_str(), "apps") && is_one_of(resource.kind.as_str(), &apps_kinds))
        || (text_eq(resource.group.as_str(), "batch") && text_eq(resource.kind.as_str(), "Job"))
}

pub fn supports_metrics(resource: &ResourceKind) -> (r: bool)
    ensures
        r == has_metrics(resource@),
{
    let kinds = ["Pod", "Node"];
    assert(kinds@.map_values(|o: &str| o@) =~= seq!["Pod"@, "Node"@]);
    resource.group.as_str().is_empty() && is_one_of(resource.kind.as_str(), &kinds)
}

/// The core Pod kind.
pub fn pod_resource_kind() -> (r: ResourceKind)
    ensures
        r@ == (ResourceView {
            group: Seq::empty(),
            version: "v1"@,
            api_version: "v1"@,
            kind: "Pod"@,
            plural: "pods"@,
            namespaced: true,
        }),
{
    ResourceKind {
        group: String::new(),
        version: "v1".to_owned(),
        api_version: "v1".to_owned(),
        kind: "Pod".to_owned(),
        plural: "pods".to_owned(),
        scope: ResourceScope::Namespaced,
    }
}

pub open spec fn optional_resource(resource: Option<&ResourceKind>) -> Option<ResourceView> {
    match resource {
        Some(r) => Some(r@),
        None => None,
    }
}

/// Whether a column makes sense for the kind `resource` (any kind if none):
/// the namespace only for namespaced kinds, the status ratio and the metrics
/// only for the kinds that have them.
pub open spec fn column_offered(resource: Option<ResourceView>, c: ObjectColumn) -> bool {
    match c {
        ObjectColumn::Namespace => match resource {
            Some(r) => r.namespaced,
            None => true,
        },
        ObjectColumn::Status => match resource {
            Some(r) => has_status_ratio(r),
            None => false,
        },
        ObjectColumn::Cpu | ObjectColumn::Memory => match resource {
            Some(r) => has_metrics(r),
            None => false,
        },
        _ => true,
    }
}

pub open spec fn offered_for(resource: Option<ResourceView>) -> spec_fn(ObjectColumn) -> bool {
    |c: ObjectColumn| column_offered(resource, c)
}

/// The columns that make sense for `resource`, in display order.
pub fn offerable_columns_for(resource: Option<&ResourceKind>) -> (r: Vec<ObjectColumn>)
    ensures
        r@ == all_columns().filter(offered_for(optional_resource(resource))),
{
    let ghost rv = optional_resource(resource);
    let (has_ratio, has_metric, namespaced) = match resource {
        Some(res) => (supports_status_ratio(res), supports_metrics(res), res.is_namespaced()),
        None => (false, false, true),
    };
    let mut out: Vec<ObjectColumn> = Vec::new();
    let mut i: usize = 0;
    proof {
        lemma_all_columns();
        reveal(Seq::filter);
        assert(all_columns().take(0) =~= Seq::<ObjectColumn>::empty());
    }
    while i < 10
        invariant
            i <= 10,
            rv == optional_resource(resource),
            has_ratio == (rv is Some && has_status_ratio(rv->0)),
            has_metric == (rv is Some && has_metrics(rv->0)),
            namespaced == (rv is None || rv->0.namespaced),
            out@ == all_columns().take(i as int).filter(offered_for(rv)),
        decreases 10 - i,
    {
        let c = ObjectColumn::at(i);
        proof {
            lemma_all_columns();
            reveal(Seq::filter);
            assert(all_columns().take(i + 1).drop_last() =~= all_columns().take(i as int));
            assert(all_columns().take(i + 1).last() == c);
        }
        let offered = match c {
            ObjectColumn::Namespace => namespaced,
            ObjectColumn::Status => has_ratio,
            ObjectColumn::Cpu | ObjectColumn::Memory => has_metric,
            _ => true,
        };
        if offered {
            out.push(c);
        }
        i += 1;
    }
    proof {
        lemma_all_columns();
        assert(all_columns().take(10) =~= all_columns());
    }
    out
}

/// The Pod kind if there is one, else the first kind, else none.
pub fn select_default_resource(resources: &[ResourceKind]) -> (r: Option<usize>)
    ensures
        match r {
            Some(i) => i < resources@.len() && (is_pod(resources@[i as int]@) || (i == 0
                && forall|k: int| 0 <= k < resources@.len() ==> !is_pod(#[trigger] resources@[k]@)))
                && forall|k: int| 0 <= k < i ==> !is_pod(#[trigger] resources@[k]@),
            None => resources@.len() == 0,
        },
{
    let mut i: usize = 0;
    while i < resources.len()
        invariant
            i <= resources@.len(),
            forall|k: int| 0 <= k < i ==> !is_pod(#[trigger] resources@[k]@),
        decreases resources.len() - i,
    {
        if text_eq(resources[i].kind.as_str(), "Pod") && resources[i].group.as_str().is_empty() {
            return Some(i);
        }
        i += 1;
    }
    if resources.len() > 0 {
        Some(0)
    } else {
        None
    }
}

/// Two texts differ in length or in one of their first three characters.
pub open spec fn texts_apart(a: Seq<char>, b: Seq<char>) -> bool {
    a.len() != b.len() || (a.len() > 2 && b.len() > 2 && (a[0] != b[0] || a[1] != b[1] || a[2] != b[2]))
}

/// A text that is apart from every option is none of them.
pub proof fn lemma_unlisted(s: Seq<char>, options: Seq<Seq<char>>)
    requires
        forall|i: int| 0 <= i < options.len() ==> texts_apart(#[trigger] options[i], s),
    ensures
        !one_of(s, options),
{
    assert forall|i: int| 0 <= i < options.len() implies options[i] != s by {
        assert(texts_apart(options[i], s));
    }
}

/// The core storage kinds (persistent volumes and their claims, storage
/// classes, CSI drivers, nodes and capacities, volume attachments), from
/// the core group or `storage.k8s.io`, list under Storage.
pub proof fn lemma_storage_kinds_listed_as_storage(r: ResourceView)
    requires
        r.group == ""@ || r.group == "storage.k8s.io"@,
        r.kind == "PersistentVolume"@ || r.kind == "PersistentVolumeClaim"@ || r.kind == "StorageClass"@
            || r.kind == "CSIDriver"@ || r.kind == "CSINode"@ || r.kind == "CSIStorageCapacity"@
            || r.kind == "VolumeAttachment"@,
    ensures
        section_for(r) == ResourceSection::Storage,
{
    reveal_strlit("");
    reveal_strlit("storage.k8s.io");
    reveal_strlit("PersistentVolume");
    reveal_strlit("PersistentVolumeClaim");
    reveal_strlit("StorageClass");
    reveal_strlit("CSIDriver");
    reveal_strlit("CSINode");
    reveal_strlit("CSIStorageCapacity");
    reveal_strlit("VolumeAttachment");
    reveal_strlit("Pod");
    reveal_strlit("Deployment");
    reveal_strlit("ReplicaSet");
    reveal_strlit("StatefulSet");
    reveal_strlit("DaemonSet");
    reveal_strlit("Job");
    reveal_strlit("CronJob");
    reveal_strlit("apps");
    reveal_strlit("batch");
    reveal_strlit("Service");
    reveal_strlit("Ingress");
    reveal_strlit("EndpointSlice");
    reveal_strlit("NetworkPolicy");
    reveal_strlit("Endpoints");
    reveal_strlit("networking.k8s.io");
    reveal_strlit("discovery.k8s.io");
    assert(""@.len() == 0);
    assert("apps"@.len() == 4);
    assert("storage.k8s.io"@.len() == 14);
    assert(workload_groups()[0] == "apps"@);
    assert(workload_groups().len() == 2);
    assert forall|i: int| 0 <= i < workload_groups().len() implies workload_groups()[i] != r.group by {
        if i == 0 {
            assert(workload_groups()[i].len() == 4);
        } else {
            assert(workload_groups()[i].len() == 5);
        }
    }
    assert(!one_of(r.group, workload_groups()));
    assert forall|i: int| 0 <= i < workload_kinds().len() implies texts_apart(#[trigger] workload_kinds()[i], r.kind) by {
    }
    lemma_unlisted(r.kind, workload_kinds());
    assert forall|i: int| 0 <= i < network_kinds().len() implies texts_apart(#[trigger] network_kinds()[i], r.kind) by {
    }
    lemma_unlisted(r.kind, network_kinds());
    assert forall|i: int| 0 <= i < network_groups().len() implies texts_apart(#[trigger] network_groups()[i], r.group) by {
    }
    lemma_unlisted(r.group, network_groups());
    assert(!one_of(r.group, network_groups()));
    assert(is_storage(r));
}

/// Every kind of the `storage.k8s.io` group that is neither a workload nor
/// a network kind lists under Storage.
pub proof fn lemma_storage_group_listed_as_storage(r: ResourceView)
    requires
        r.group == "storage.k8s.io"@,
        !is_workload(r),
        !is_network(r),
    ensures
        section_for(r) == ResourceSection::Storage,
{
}

/// The kinds that show a ready/desired ratio, and for which the Status
/// column is offered, are exactly the replica-managing workloads of `apps`
/// (Deployment, StatefulSet, ReplicaSet, DaemonSet) and the Jobs of
/// `batch`.
pub proof fn lemma_status_ratio_kinds(r: ResourceView)
    ensures
        has_status_ratio(r) <==> (r.group == "apps"@ && (r.kind == "Deployment"@ || r.kind == "StatefulSet"@
            || r.kind == "ReplicaSet"@ || r.kind == "DaemonSet"@)) || (r.group == "batch"@ && r.kind == "Job"@),
        column_offered(Some(r), ObjectColumn::Status) == has_status_ratio(r),
{
    let ks = seq!["Deployment"@, "StatefulSet"@, "ReplicaSet"@, "DaemonSet"@];
    assert(ks[0] == "Deployment"@ && ks[1] == "StatefulSet"@ && ks[2] == "ReplicaSet"@ && ks[3] == "DaemonSet"@);
    if ks.contains(r.kind) {
        let i = choose|i: int| 0 <= i < ks.len() && ks[i] == r.kind;
        assert(i == 0 || i == 1 || i == 2 || i == 3);
    }
}

} // verus!
