use vstd::prelude::*;
use crate::role::{role_command, role_name, SparkNodeType};
use crate::topology::RoleGroup;

verus! {

/// Image that every container of the cluster runs.
pub const IMAGE: &'static str = "stackable/spark:3.0.1";

/// Name of the container in each pod.
pub const CONTAINER_NAME: &'static str = "spark";

/// Volume that holds the generated configuration directory, and its mount path.
pub const CONFIG_VOLUME: &'static str = "config-volume";

pub const CONFIG_MOUNT_PATH: &'static str = "conf";

/// Volume that holds the generated data directory, and its mount path.
pub const DATA_VOLUME: &'static str = "data-volume";

pub const DATA_MOUNT_PATH: &'static str = "/tmp/spark-events";

/// A reference from a pod to the cluster resource that owns it, so that the
/// pod goes when the cluster goes.
#[derive(Clone, Debug)]
pub struct OwnerReference {
    pub api_version: String,
    pub kind: String,
    pub name: String,
    pub uid: String,
    pub controller: bool,
}

impl OwnerReference {
    /// A copy of this reference.
    pub fn duplicate(&self) -> (r: OwnerReference)
        ensures
            r == *self,
    {
        OwnerReference {
            api_version: self.api_version.clone(),
            kind: self.kind.clone(),
            name: self.name.clone(),
            uid: self.uid.clone(),
            controller: self.controller,
        }
    }
}

/// Everything that distinguishes one new pod of a role group: its identity,
/// its two identity labels, its owner, its one container and what it runs, and
/// its two volumes: where each is mounted and the config map behind it.
#[derive(Clone, Debug)]
pub struct PodTemplate {
    pub name: String,
    pub namespace: String,
    pub role_label: String,
    pub hash_label: String,
    pub owner_references: Vec<OwnerReference>,
    pub container_name: String,
    pub image: String,
    pub command: String,
    pub config_volume: String,
    pub config_mount_path: String,
    pub config_map: String,
    pub data_volume: String,
    pub data_mount_path: String,
    pub data_map: String,
}

/// `{cluster}-{role}-{hash}`: the prefix shared by the config maps of a group.
pub open spec fn config_map_prefix(cluster: Seq<char>, role: SparkNodeType, hash: Seq<char>) -> Seq<
    char,
> {
    cluster + "-"@ + role_name(role) + "-"@ + hash
}

/// `{cluster}-{role}-{hash}-{suffix}`: the name of a new pod.
pub open spec fn pod_name(
    cluster: Seq<char>,
    role: SparkNodeType,
    hash: Seq<char>,
    suffix: Seq<char>,
) -> Seq<char> {
    config_map_prefix(cluster, role, hash) + "-"@ + suffix
}

/// One to ten decimal digits: the text of a `u32`.
pub open spec fn is_decimal_suffix(s: Seq<char>) -> bool {
    &&& 1 <= s.len() <= 10
    &&& forall|i: int| 0 <= i < s.len() ==> '0' <= #[trigger] s[i] && s[i] <= '9'
}

/// The template of a new pod of group `g`, owned by `owner` and named with
/// `suffix`.
pub open spec fn template_of(
    t: PodTemplate,
    cluster: Seq<char>,
    namespace: Seq<char>,
    owner: OwnerReference,
    g: RoleGroup,
    suffix: Seq<char>,
) -> bool {
    &&& t.name@ == pod_name(cluster, g.role, g.hash@, suffix)
    &&& t.namespace@ == namespace
    &&& t.role_label@ == role_name(g.role)
    &&& t.hash_label@ == g.hash@
    &&& t.owner_references@ == seq![owner]
    &&& t.container_name@ == CONTAINER_NAME@
    &&& t.image@ == IMAGE@
    &&& t.command@ == role_command(g.role)
    &&& t.config_volume@ == CONFIG_VOLUME@
    &&& t.config_mount_path@ == CONFIG_MOUNT_PATH@
    &&& t.config_map@ == config_map_prefix(cluster, g.role, g.hash@) + "-config"@
    &&& t.data_volume@ == DATA_VOLUME@
    &&& t.data_mount_path@ == DATA_MOUNT_PATH@
    &&& t.data_map@ == config_map_prefix(cluster, g.role, g.hash@) + "-data"@
}

/// `{cluster}-{role}-{hash}`.
pub fn create_config_map_name(cluster: &str, node_type: SparkNodeType, hash: &str) -> (r: String)
    ensures
        r@ == config_map_prefix(cluster@, node_type, hash@),
{
    let mut r = String::from_str(cluster);
    r.append("-");
    r.append(node_type.as_str());
    r.append("-");
    r.append(hash);
    r
}

/// `{cluster}-{role}-{hash}-{suffix}`.
pub fn create_pod_name(cluster: &str, node_type: SparkNodeType, hash: &str, suffix: &str) -> (r:
    String)
    ensures
        r@ == pod_name(cluster@, node_type, hash@, suffix@),
{
    let mut r = create_config_map_name(cluster, node_type, hash);
    r.append("-");
    r.append(suffix);
    r
}

/// The template of a new pod of group `g` of a cluster, owned by `owner` and
/// named with `suffix`.
pub fn build_pod(
    cluster: &str,
    namespace: &str,
    owner: &OwnerReference,
    g: &RoleGroup,
    suffix: &str,
) -> (r: PodTemplate)
    ensures
        template_of(r, cluster@, namespace@, *owner, *g, suffix@),
{
    let prefix = create_config_map_name(cluster, g.role, g.hash.as_str());
    let config_map = prefix.clone().concat("-config");
    let data_map = prefix.concat("-data");
    let mut owner_references: Vec<OwnerReference> = Vec::new();
    owner_references.push(owner.duplicate());
    assert(owner_references@ =~= seq![*owner]);
    PodTemplate {
        name: create_pod_name(cluster, g.role, g.hash.as_str(), suffix),
        namespace: String::from_str(namespace),
        role_label: String::from_str(g.role.as_str()),
        hash_label: g.hash.clone(),
        owner_references,
        container_name: String::from_str(CONTAINER_NAME),
        image: String::from_str(IMAGE),
        command: String::from_str(g.role.get_command()),
        config_volume: String::from_str(CONFIG_VOLUME),
        config_mount_path: String::from_str(CONFIG_MOUNT_PATH),
        config_map,
        data_volume: String::from_str(DATA_VOLUME),
        data_mount_path: String::from_str(DATA_MOUNT_PATH),
        data_map,
    }
}

/// Relies on uuid::Uuid::new_v4 and its as_fields: the first field of a fresh
/// random UUID, a `u32`, tells apart pods of one group; and on `u32`'s
/// `to_string`, which writes it in decimal: one to ten digits. Which digits is
/// random.
#[verifier::external_body]
fn unique_suffix() -> (r: String)
    ensures
        is_decimal_suffix(r@),
{
    uuid::Uuid::new_v4().as_fields().0.to_string()
}

/// The template of a new pod of group `g`, owned by `owner` and named with a
/// fresh random decimal suffix.
pub fn create_pod(cluster: &str, namespace: &str, owner: &OwnerReference, g: &RoleGroup) -> (r:
    PodTemplate)
    ensures
        exists|suffix: Seq<char>|
            is_decimal_suffix(suffix) && template_of(r, cluster@, namespace@, *owner, *g, suffix),
{
    let suffix = unique_suffix();
    let r = build_pod(cluster, namespace, owner, g, suffix.as_str());
    assert(is_decimal_suffix(suffix@) && template_of(r, cluster@, namespace@, *owner, *g, suffix@));
    r
}

} // verus!
