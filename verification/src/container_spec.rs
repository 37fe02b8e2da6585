//! The container description of the libpod create API, and its JSON document.
use crate::json::{
    array_json, array_of, bool_value, document, empty_map, insert_member, members, number_value,
    object_json, object_of, object_value, Json, ToJson,
};
use crate::string_map::StringMap;
use crate::views::{option_view, seq_view};
use vstd::prelude::*;

verus! {

/// A port mapping of the libpod create API.
pub struct PortMapping {
    /// 0 asks for an ephemeral port.
    pub host_port: u16,
    pub container_port: u16,
    pub protocol: String,
}

/// A mount of the libpod create API, of any type.
pub struct Mount {
    pub kind: String,
    pub source: String,
    pub destination: String,
    pub options: Vec<String>,
}

/// An OCI image whose file system is mounted.
pub struct ImageVolume {
    pub source: String,
    pub destination: String,
    pub rw: bool,
}

/// A named Podman volume.
pub struct NamedVolume {
    pub name: String,
    pub dest: String,
    pub options: Vec<String>,
}

/// A health check; times are in nanoseconds.
pub struct HealthConfig {
    pub test: Vec<String>,
    pub interval: u64,
    pub timeout: u64,
    pub retries: u32,
    pub start_period: u64,
}

/// A CPU limit: microseconds of run time per period.
pub struct CpuLimits {
    pub quota: u64,
    pub period: u64,
}

/// A memory limit, in bytes.
pub struct MemoryLimits {
    pub limit: u64,
}

/// The resource limits of a container.
pub struct ResourceLimits {
    pub cpu: CpuLimits,
    pub memory: MemoryLimits,
}

/// The network namespace mode.
pub struct NetNS {
    pub nsmode: String,
}

/// An attachment to a network.
pub struct NetworkAttachment {
    /// A static address, if any.
    pub static_ip: Option<String>,
}

/// A device of the host.
pub struct LinuxDevice {
    pub path: String,
}

/// A container of the libpod create API.
pub struct ContainerSpec {
    pub name: String,
    pub image: String,
    pub labels: StringMap<String>,
    pub env: StringMap<String>,
    pub volumes: Vec<NamedVolume>,
    pub image_volumes: Vec<ImageVolume>,
    pub hostname: String,
    /// Overrides the entrypoint of the image; `command` alone would be appended to it.
    pub entrypoint: Vec<String>,
    pub command: Vec<String>,
    pub user: String,
    pub cap_drop: Vec<String>,
    pub cap_add: Vec<String>,
    pub no_new_privileges: bool,
    pub seccomp_profile_path: String,
    pub image_pull_policy: String,
    pub healthconfig: HealthConfig,
    pub resource_limits: ResourceLimits,
    /// Environment variables that are set from Podman secrets, by secret name.
    pub secret_env: StringMap<String>,
    pub stop_timeout: u32,
    /// Extra entries of the hosts file.
    pub hostadd: Vec<String>,
    pub netns: NetNS,
    pub networks: StringMap<NetworkAttachment>,
    pub devices: Option<Vec<LinuxDevice>>,
    pub mounts: Vec<Mount>,
    pub portmappings: Vec<PortMapping>,
    pub dns_server: Vec<String>,
    /// Paths that are masked by default and are not in this container.
    pub unmask: Vec<String>,
    /// Options of the SELinux process label.
    pub selinux_opts: Vec<String>,
}

pub struct PortMappingView {
    pub host_port: nat,
    pub container_port: nat,
    pub protocol: Seq<char>,
}

pub struct MountView {
    pub kind: Seq<char>,
    pub source: Seq<char>,
    pub destination: Seq<char>,
    pub options: Seq<Seq<char>>,
}

pub struct ImageVolumeView {
    pub source: Seq<char>,
    pub destination: Seq<char>,
    pub rw: bool,
}

pub struct NamedVolumeView {
    pub name: Seq<char>,
    pub dest: Seq<char>,
    pub options: Seq<Seq<char>>,
}

pub struct HealthConfigView {
    pub test: Seq<Seq<char>>,
    pub interval: nat,
    pub timeout: nat,
    pub retries: nat,
    pub start_period: nat,
}

pub struct CpuLimitsView {
    pub quota: nat,
    pub period: nat,
}

pub struct MemoryLimitsView {
    pub limit: nat,
}

pub struct ResourceLimitsView {
    pub cpu: CpuLimitsView,
    pub memory: MemoryLimitsView,
}

pub struct NetNSView {
    pub nsmode: Seq<char>,
}

pub struct NetworkAttachmentView {
    pub static_ip: Option<Seq<char>>,
}

pub struct LinuxDeviceView {
    pub path: Seq<char>,
}

#[verifier::ext_equal]
pub struct ContainerSpecView {
    pub name: Seq<char>,
    pub image: Seq<char>,
    pub labels: Map<Seq<char>, Seq<char>>,
    pub env: Map<Seq<char>, Seq<char>>,
    pub volumes: Seq<NamedVolumeView>,
    pub image_volumes: Seq<ImageVolumeView>,
    pub hostname: Seq<char>,
    pub entrypoint: Seq<Seq<char>>,
    pub command: Seq<Seq<char>>,
    pub user: Seq<char>,
    pub cap_drop: Seq<Seq<char>>,
    pub cap_add: Seq<Seq<char>>,
    pub no_new_privileges: bool,
    pub seccomp_profile_path: Seq<char>,
    pub image_pull_policy: Seq<char>,
    pub healthconfig: HealthConfigView,
    pub resource_limits: ResourceLimitsView,
    pub secret_env: Map<Seq<char>, Seq<char>>,
    pub stop_timeout: nat,
    pub hostadd: Seq<Seq<char>>,
    pub netns: NetNSView,
    pub networks: Map<Seq<char>, NetworkAttachmentView>,
    pub devices: Option<Seq<LinuxDeviceView>>,
    pub mounts: Seq<MountView>,
    pub portmappings: Seq<PortMappingView>,
    pub dns_server: Seq<Seq<char>>,
    pub unmask: Seq<Seq<char>>,
    pub selinux_opts: Seq<Seq<char>>,
}

impl View for PortMapping {
    type V = PortMappingView;

    open spec fn view(&self) -> PortMappingView {
        PortMappingView {
            host_port: self.host_port as nat,
            container_port: self.container_port as nat,
            protocol: self.protocol@,
        }
    }
}

impl View for Mount {
    type V = MountView;

    open spec fn view(&self) -> MountView {
        MountView {
            kind: self.kind@,
            source: self.source@,
            destination: self.destination@,
            options: seq_view(self.options@),
        }
    }
}

impl View for ImageVolume {
    type V = ImageVolumeView;

    open spec fn view(&self) -> ImageVolumeView {
        ImageVolumeView {
            source: self.source@,
            destination: self.destination@,
            rw: self.rw,
        }
    }
}

impl View for NamedVolume {
    type V = NamedVolumeView;

    open spec fn view(&self) -> NamedVolumeView {
        NamedVolumeView {
            name: self.name@,
            dest: self.dest@,
            options: seq_view(self.options@),
        }
    }
}

impl View for HealthConfig {
    type V = HealthConfigView;

    open spec fn view(&self) -> HealthConfigView {
        HealthConfigView {
            test: seq_view(self.test@),
            interval: self.interval as nat,
            timeout: self.timeout as nat,
            retries: self.retries as nat,
            start_period: self.start_period as nat,
        }
    }
}

impl View for CpuLimits {
    type V = CpuLimitsView;

    open spec fn view(&self) -> CpuLimitsView {
        CpuLimitsView {
            quota: self.quota as nat,
            period: self.period as nat,
        }
    }
}

impl View for MemoryLimits {
    type V = MemoryLimitsView;

    open spec fn view(&self) -> MemoryLimitsView {
        MemoryLimitsView {
            limit: self.limit as nat,
        }
    }
}

impl View for ResourceLimits {
    type V = ResourceLimitsView;

    open spec fn view(&self) -> ResourceLimitsView {
        ResourceLimitsView {
            cpu: self.cpu@,
            memory: self.memory@,
        }
    }
}

impl View for NetNS {
    type V = NetNSView;

    open spec fn view(&self) -> NetNSView {
        NetNSView {
            nsmode: self.nsmode@,
        }
    }
}

impl View for NetworkAttachment {
    type V = NetworkAttachmentView;

    open spec fn view(&self) -> NetworkAttachmentView {
        NetworkAttachmentView {
            static_ip: option_view(self.static_ip),
        }
    }
}

impl View for LinuxDevice {
    type V = LinuxDeviceView;

    open spec fn view(&self) -> LinuxDeviceView {
        LinuxDeviceView {
            path: self.path@,
        }
    }
}

impl View for ContainerSpec {
    type V = ContainerSpecView;

    open spec fn view(&self) -> ContainerSpecView {
        ContainerSpecView {
            name: self.name@,
            image: self.image@,
            labels: self.labels@,
            env: self.env@,
            volumes: seq_view(self.volumes@),
            image_volumes: seq_view(self.image_volumes@),
            hostname: self.hostname@,
            entrypoint: seq_view(self.entrypoint@),
            command: seq_view(self.command@),
            user: self.user@,
            cap_drop: seq_view(self.cap_drop@),
            cap_add: seq_view(self.cap_add@),
            no_new_privileges: self.no_new_privileges,
            seccomp_profile_path: self.seccomp_profile_path@,
            image_pull_policy: self.image_pull_policy@,
            healthconfig: self.healthconfig@,
            resource_limits: self.resource_limits@,
            secret_env: self.secret_env@,
            stop_timeout: self.stop_timeout as nat,
            hostadd: seq_view(self.hostadd@),
            netns: self.netns@,
            networks: self.networks@,
            devices: match self.devices {
                Some(items) => Some(seq_view(items@)),
                None => None,
            },
            mounts: seq_view(self.mounts@),
            portmappings: seq_view(self.portmappings@),
            dns_server: seq_view(self.dns_server@),
            unmask: seq_view(self.unmask@),
            selinux_opts: seq_view(self.selinux_opts@),
        }
    }
}

/// Set a member of an object.
fn put(
    object: &mut serde_json::Map<String, serde_json::Value>,
    key: &str,
    value: serde_json::Value,
)
    ensures
        members(*final(object)) == members(*old(object)).insert(key@, document(value)),
{
    insert_member(object, key.to_owned(), value);
}

impl ToJson for PortMapping {
    open spec fn json(view: PortMappingView) -> Json {
        let object = map![
            "host_port"@ => Json::Number(view.host_port),
            "container_port"@ => Json::Number(view.container_port),
            "protocol"@ => Json::Text(view.protocol),
        ];
        Json::Object(object)
    }

    fn to_value(&self) -> (value: serde_json::Value) {
        let mut object = empty_map();
        put(&mut object, "host_port", number_value(self.host_port as u64));
        put(&mut object, "container_port", number_value(self.container_port as u64));
        put(&mut object, "protocol", self.protocol.to_value());
        object_value(object)
    }
}

impl ToJson for Mount {
    /// Left out where there is none: `options`.
    open spec fn json(view: MountView) -> Json {
        let object = map![
            "type"@ => Json::Text(view.kind),
            "source"@ => Json::Text(view.source),
            "destination"@ => Json::Text(view.destination),
        ];
        let object = if view.options.len() == 0 {
            object
        } else {
            object.insert("options"@, array_json::<String>(view.options))
        };
        Json::Object(object)
    }

    fn to_value(&self) -> (value: serde_json::Value) {
        let mut object = empty_map();
        put(&mut object, "type", self.kind.to_value());
        put(&mut object, "source", self.source.to_value());
        put(&mut object, "destination", self.destination.to_value());
        if self.options.len() > 0 {
            put(&mut object, "options", array_of(&self.options));
        }
        object_value(object)
    }
}

impl ToJson for ImageVolume {
    open spec fn json(view: ImageVolumeView) -> Json {
        let object = map![
            "source"@ => Json::Text(view.source),
            "destination"@ => Json::Text(view.destination),
            "rw"@ => Json::Bool(view.rw),
        ];
        Json::Object(object)
    }

    fn to_value(&self) -> (value: serde_json::Value) {
        let mut object = empty_map();
        put(&mut object, "source", self.source.to_value());
        put(&mut object, "destination", self.destination.to_value());
        put(&mut object, "rw", bool_value(self.rw));
        object_value(object)
    }
}

impl ToJson for NamedVolume {
    open spec fn json(view: NamedVolumeView) -> Json {
        let object = map![
            "name"@ => Json::Text(view.name),
            "dest"@ => Json::Text(view.dest),
            "options"@ => array_json::<String>(view.options),
        ];
        Json::Object(object)
    }

    fn to_value(&self) -> (value: serde_json::Value) {
        let mut object = empty_map();
        put(&mut object, "name", self.name.to_value());
        put(&mut object, "dest", self.dest.to_value());
        put(&mut object, "options", array_of(&self.options));
        object_value(object)
    }
}

impl ToJson for HealthConfig {
    open spec fn json(view: HealthConfigView) -> Json {
        let object = map![
            "test"@ => array_json::<String>(view.test),
            "Interval"@ => Json::Number(view.interval),
            "Timeout"@ => Json::Number(view.timeout),
            "Retries"@ => Json::Number(view.retries),
            "StartPeriod"@ => Json::Number(view.start_period),
        ];
        Json::Object(object)
    }

    fn to_value(&self) -> (value: serde_json::Value) {
        let mut object = empty_map();
        put(&mut object, "test", array_of(&self.test));
        put(&mut object, "Interval", number_value(self.interval));
        put(&mut object, "Timeout", number_value(self.timeout));
        put(&mut object, "Retries", number_value(self.retries as u64));
        put(&mut object, "StartPeriod", number_value(self.start_period));
        object_value(object)
    }
}

impl ToJson for CpuLimits {
    open spec fn json(view: CpuLimitsView) -> Json {
        let object = map![
            "quota"@ => Json::Number(view.quota),
            "period"@ => Json::Number(view.period),
        ];
        Json::Object(object)
    }

    fn to_value(&self) -> (value: serde_json::Value) {
        let mut object = empty_map();
        put(&mut object, "quota", number_value(self.quota));
        put(&mut object, "period", number_value(self.period));
        object_value(object)
    }
}

impl ToJson for MemoryLimits {
    open spec fn json(view: MemoryLimitsView) -> Json {
        let object = map![
            "limit"@ => Json::Number(view.limit),
        ];
        Json::Object(object)
    }

    fn to_value(&self) -> (value: serde_json::Value) {
        let mut object = empty_map();
        put(&mut object, "limit", number_value(self.limit));
        object_value(object)
    }
}

impl ToJson for ResourceLimits {
    open spec fn json(view: ResourceLimitsView) -> Json {
        let object = map![
            "cpu"@ => CpuLimits::json(view.cpu),
            "memory"@ => MemoryLimits::json(view.memory),
        ];
        Json::Object(object)
    }

    fn to_value(&self) -> (value: serde_json::Value) {
        let mut object = empty_map();
        put(&mut object, "cpu", self.cpu.to_value());
        put(&mut object, "memory", self.memory.to_value());
        object_value(object)
    }
}

impl ToJson for NetNS {
    open spec fn json(view: NetNSView) -> Json {
        let object = map![
            "nsmode"@ => Json::Text(view.nsmode),
        ];
        Json::Object(object)
    }

    fn to_value(&self) -> (value: serde_json::Value) {
        let mut object = empty_map();
        put(&mut object, "nsmode", self.nsmode.to_value());
        object_value(object)
    }
}

impl ToJson for NetworkAttachment {
    /// Left out where there is none: `static_ip`.
    open spec fn json(view: NetworkAttachmentView) -> Json {
        let object = Map::empty();
        let object = match view.static_ip {
            Some(given) => object.insert("static_ip"@, Json::Text(given)),
            None => object,
        };
        Json::Object(object)
    }

    fn to_value(&self) -> (value: serde_json::Value) {
        let mut object = empty_map();
        if let Some(given) = &self.static_ip {
            put(&mut object, "static_ip", given.to_value());
        }
        object_value(object)
    }
}

impl ToJson for LinuxDevice {
    open spec fn json(view: LinuxDeviceView) -> Json {
        let object = map![
            "path"@ => Json::Text(view.path),
        ];
        Json::Object(object)
    }

    fn to_value(&self) -> (value: serde_json::Value) {
        let mut object = empty_map();
        put(&mut object, "path", self.path.to_value());
        object_value(object)
    }
}

impl ToJson for ContainerSpec {
    /// Left out where there is none: `devices`, `dns_server`, `unmask`, `selinux_opts`.
    open spec fn json(view: ContainerSpecView) -> Json {
        let object = map![
            "name"@ => Json::Text(view.name),
            "image"@ => Json::Text(view.image),
            "labels"@ => object_json::<String>(view.labels),
            "env"@ => object_json::<String>(view.env),
            "volumes"@ => array_json::<NamedVolume>(view.volumes),
            "image_volumes"@ => array_json::<ImageVolume>(view.image_volumes),
            "hostname"@ => Json::Text(view.hostname),
            "entrypoint"@ => array_json::<String>(view.entrypoint),
            "command"@ => array_json::<String>(view.command),
            "user"@ => Json::Text(view.user),
            "cap_drop"@ => array_json::<String>(view.cap_drop),
            "cap_add"@ => array_json::<String>(view.cap_add),
            "no_new_privileges"@ => Json::Bool(view.no_new_privileges),
            "seccomp_profile_path"@ => Json::Text(view.seccomp_profile_path),
            "image_pull_policy"@ => Json::Text(view.image_pull_policy),
            "healthconfig"@ => HealthConfig::json(view.healthconfig),
            "resource_limits"@ => ResourceLimits::json(view.resource_limits),
            "secret_env"@ => object_json::<String>(view.secret_env),
            "stop_timeout"@ => Json::Number(view.stop_timeout),
            "hostadd"@ => array_json::<String>(view.hostadd),
            "netns"@ => NetNS::json(view.netns),
            "networks"@ => object_json::<NetworkAttachment>(view.networks),
            "mounts"@ => array_json::<Mount>(view.mounts),
            "portmappings"@ => array_json::<PortMapping>(view.portmappings),
        ];
        let object = match view.devices {
            Some(given) => object.insert("devices"@, array_json::<LinuxDevice>(given)),
            None => object,
        };
        let object = if view.dns_server.len() == 0 {
            object
        } else {
            object.insert("dns_server"@, array_json::<String>(view.dns_server))
        };
        let object = if view.unmask.len() == 0 {
            object
        } else {
            object.insert("unmask"@, array_json::<String>(view.unmask))
        };
        let object = if view.selinux_opts.len() == 0 {
            object
        } else {
            object.insert("selinux_opts"@, array_json::<String>(view.selinux_opts))
        };
        Json::Object(object)
    }

    fn to_value(&self) -> (value: serde_json::Value) {
        let mut object = empty_map();
        put(&mut object, "name", self.name.to_value());
        put(&mut object, "image", self.image.to_value());
        put(&mut object, "labels", object_of(&self.labels));
        put(&mut object, "env", object_of(&self.env));
        put(&mut object, "volumes", array_of(&self.volumes));
        put(&mut object, "image_volumes", array_of(&self.image_volumes));
        put(&mut object, "hostname", self.hostname.to_value());
        put(&mut object, "entrypoint", array_of(&self.entrypoint));
        put(&mut object, "command", array_of(&self.command));
        put(&mut object, "user", self.user.to_value());
        put(&mut object, "cap_drop", array_of(&self.cap_drop));
        put(&mut object, "cap_add", array_of(&self.cap_add));
        put(&mut object, "no_new_privileges", bool_value(self.no_new_privileges));
        put(&mut object, "seccomp_profile_path", self.seccomp_profile_path.to_value());
        put(&mut object, "image_pull_policy", self.image_pull_policy.to_value());
        put(&mut object, "healthconfig", self.healthconfig.to_value());
        put(&mut object, "resource_limits", self.resource_limits.to_value());
        put(&mut object, "secret_env", object_of(&self.secret_env));
        put(&mut object, "stop_timeout", number_value(self.stop_timeout as u64));
        put(&mut object, "hostadd", array_of(&self.hostadd));
        put(&mut object, "netns", self.netns.to_value());
        put(&mut object, "networks", object_of(&self.networks));
        put(&mut object, "mounts", array_of(&self.mounts));
        put(&mut object, "portmappings", array_of(&self.portmappings));
        if let Some(given) = &self.devices {
            put(&mut object, "devices", array_of(given));
        }
        if self.dns_server.len() > 0 {
            put(&mut object, "dns_server", array_of(&self.dns_server));
        }
        if self.unmask.len() > 0 {
            put(&mut object, "unmask", array_of(&self.unmask));
        }
        if self.selinux_opts.len() > 0 {
            put(&mut object, "selinux_opts", array_of(&self.selinux_opts));
        }
        object_value(object)
    }
}

/// A container is seen as it is.
pub proof fn law_container_view(spec: ContainerSpec)
    ensures
        spec@.name == spec.name@,
        spec@.image == spec.image@,
        spec@.labels == spec.labels@,
        spec@.env == spec.env@,
        spec@.hostname == spec.hostname@,
        spec@.user == spec.user@,
        spec@.seccomp_profile_path == spec.seccomp_profile_path@,
        spec@.image_pull_policy == spec.image_pull_policy@,
        spec@.healthconfig == spec.healthconfig@,
        spec@.resource_limits == spec.resource_limits@,
        spec@.secret_env == spec.secret_env@,
        spec@.netns == spec.netns@,
        spec@.networks == spec.networks@,
        spec@.no_new_privileges == spec.no_new_privileges,
        spec@.stop_timeout == spec.stop_timeout,
        spec@.volumes == seq_view(spec.volumes@),
        spec@.image_volumes == seq_view(spec.image_volumes@),
        spec@.entrypoint == seq_view(spec.entrypoint@),
        spec@.command == seq_view(spec.command@),
        spec@.cap_drop == seq_view(spec.cap_drop@),
        spec@.cap_add == seq_view(spec.cap_add@),
        spec@.hostadd == seq_view(spec.hostadd@),
        spec@.mounts == seq_view(spec.mounts@),
        spec@.portmappings == seq_view(spec.portmappings@),
        spec@.dns_server == seq_view(spec.dns_server@),
        spec@.unmask == seq_view(spec.unmask@),
        spec@.devices is Some <==> spec.devices is Some,
        spec.devices matches Some(items) ==> spec@.devices == Some(seq_view(items@)),
        spec@.selinux_opts == seq_view(spec.selinux_opts@),
{
}

/// The parts of a container are seen as they are.
pub proof fn law_part_views(
    mapping: PortMapping,
    mount: Mount,
    image_volume: ImageVolume,
    volume: NamedVolume,
    health: HealthConfig,
    limits: ResourceLimits,
    netns: NetNS,
    attachment: NetworkAttachment,
    device: LinuxDevice,
)
    ensures
        mapping@.host_port == mapping.host_port,
        mapping@.container_port == mapping.container_port,
        mapping@.protocol == mapping.protocol@,
        mount@.kind == mount.kind@,
        mount@.source == mount.source@,
        mount@.destination == mount.destination@,
        mount@.options == seq_view(mount.options@),
        image_volume@.source == image_volume.source@,
        image_volume@.destination == image_volume.destination@,
        image_volume@.rw == image_volume.rw,
        volume@.name == volume.name@,
        volume@.dest == volume.dest@,
        volume@.options == seq_view(volume.options@),
        health@.test == seq_view(health.test@),
        health@.interval == health.interval,
        health@.timeout == health.timeout,
        health@.retries == health.retries,
        health@.start_period == health.start_period,
        limits@.cpu.quota == limits.cpu.quota,
        limits@.cpu.period == limits.cpu.period,
        limits@.memory.limit == limits.memory.limit,
        netns@.nsmode == netns.nsmode@,
        attachment@.static_ip is Some <==> attachment.static_ip is Some,
        attachment.static_ip matches Some(address) ==> attachment@.static_ip == Some(address@),
        device@.path == device.path@,
{
}

} // verus!
