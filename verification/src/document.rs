//! What the document of a container holds.
use crate::container_spec::{
    ContainerSpec, ContainerSpecView, CpuLimits, CpuLimitsView, HealthConfig, HealthConfigView,
    ImageVolume, ImageVolumeView, LinuxDevice, LinuxDeviceView, MemoryLimits, MemoryLimitsView,
    Mount, MountView, NamedVolume, NamedVolumeView, NetNS, NetNSView, NetworkAttachment,
    NetworkAttachmentView, PortMapping, PortMappingView, ResourceLimits, ResourceLimitsView,
};
use crate::json::{array_json, object_json, Json, ToJson};
use vstd::prelude::*;

verus! {

/// The member of an object under a name.
pub open spec fn member(object: Json, key: Seq<char>) -> Option<Json> {
    if object is Object && object->Object_0.contains_key(key) {
        Some(object->Object_0[key])
    } else {
        None
    }
}

/// The document of a container has every part of the container under its own name.
/// Devices that are not given have no member there, nor have an empty list of DNS
/// servers, of paths to unmask and of SELinux options.
pub proof fn law_document_members(view: ContainerSpecView)
    ensures
        ({
            let object = ContainerSpec::json(view);
            &&& member(object, "name"@) == Some(Json::Text(view.name))
            &&& member(object, "image"@) == Some(Json::Text(view.image))
            &&& member(object, "labels"@) == Some(object_json::<String>(view.labels))
            &&& member(object, "env"@) == Some(object_json::<String>(view.env))
            &&& member(object, "volumes"@) == Some(array_json::<NamedVolume>(view.volumes))
            &&& member(object, "image_volumes"@) == Some(array_json::<ImageVolume>(view.image_volumes))
            &&& member(object, "hostname"@) == Some(Json::Text(view.hostname))
            &&& member(object, "entrypoint"@) == Some(array_json::<String>(view.entrypoint))
            &&& member(object, "command"@) == Some(array_json::<String>(view.command))
            &&& member(object, "user"@) == Some(Json::Text(view.user))
            &&& member(object, "cap_drop"@) == Some(array_json::<String>(view.cap_drop))
            &&& member(object, "cap_add"@) == Some(array_json::<String>(view.cap_add))
            &&& member(object, "no_new_privileges"@) == Some(Json::Bool(view.no_new_privileges))
            &&& member(object, "seccomp_profile_path"@) == Some(Json::Text(view.seccomp_profile_path))
            &&& member(object, "image_pull_policy"@) == Some(Json::Text(view.image_pull_policy))
            &&& member(object, "healthconfig"@) == Some(HealthConfig::json(view.healthconfig))
            &&& member(object, "resource_limits"@) == Some(ResourceLimits::json(view.resource_limits))
            &&& member(object, "secret_env"@) == Some(object_json::<String>(view.secret_env))
            &&& member(object, "stop_timeout"@) == Some(Json::Number(view.stop_timeout))
            &&& member(object, "hostadd"@) == Some(array_json::<String>(view.hostadd))
            &&& member(object, "netns"@) == Some(NetNS::json(view.netns))
            &&& member(object, "networks"@) == Some(object_json::<NetworkAttachment>(view.networks))
            &&& member(object, "mounts"@) == Some(array_json::<Mount>(view.mounts))
            &&& member(object, "portmappings"@) == Some(array_json::<PortMapping>(view.portmappings))
            &&& member(object, "devices"@) == match view.devices {
                Some(devices) => Some(array_json::<LinuxDevice>(devices)),
                None => None,
            }
            &&& member(object, "dns_server"@) == if view.dns_server.len() == 0 {
                None
            } else {
                Some(array_json::<String>(view.dns_server))
            }
            &&& member(object, "unmask"@) == if view.unmask.len() == 0 {
                None
            } else {
                Some(array_json::<String>(view.unmask))
            }
            &&& member(object, "selinux_opts"@) == if view.selinux_opts.len() == 0 {
                None
            } else {
                Some(array_json::<String>(view.selinux_opts))
            }
        }),
{
    reveal_strlit("name");
    reveal_strlit("image");
    reveal_strlit("labels");
    reveal_strlit("env");
    reveal_strlit("volumes");
    reveal_strlit("image_volumes");
    reveal_strlit("hostname");
    reveal_strlit("entrypoint");
    reveal_strlit("command");
    reveal_strlit("user");
    reveal_strlit("cap_drop");
    reveal_strlit("cap_add");
    reveal_strlit("no_new_privileges");
    reveal_strlit("seccomp_profile_path");
    reveal_strlit("image_pull_policy");
    reveal_strlit("healthconfig");
    reveal_strlit("resource_limits");
    reveal_strlit("secret_env");
    reveal_strlit("stop_timeout");
    reveal_strlit("hostadd");
    reveal_strlit("netns");
    reveal_strlit("networks");
    reveal_strlit("mounts");
    reveal_strlit("portmappings");
    reveal_strlit("devices");
    reveal_strlit("dns_server");
    reveal_strlit("unmask");
    reveal_strlit("selinux_opts");
    assert("name"@.len() == 4);
    assert("image"@.len() == 5);
    assert("labels"@.len() == 6);
    assert("env"@.len() == 3);
    assert("volumes"@.len() == 7);
    assert("image_volumes"@.len() == 13);
    assert("hostname"@.len() == 8);
    assert("entrypoint"@.len() == 10);
    assert("command"@.len() == 7);
    assert("user"@.len() == 4);
    assert("cap_drop"@.len() == 8);
    assert("cap_add"@.len() == 7);
    assert("no_new_privileges"@.len() == 17);
    assert("seccomp_profile_path"@.len() == 20);
    assert("image_pull_policy"@.len() == 17);
    assert("healthconfig"@.len() == 12);
    assert("resource_limits"@.len() == 15);
    assert("secret_env"@.len() == 10);
    assert("stop_timeout"@.len() == 12);
    assert("hostadd"@.len() == 7);
    assert("netns"@.len() == 5);
    assert("networks"@.len() == 8);
    assert("mounts"@.len() == 6);
    assert("portmappings"@.len() == 12);
    assert("devices"@.len() == 7);
    assert("dns_server"@.len() == 10);
    assert("unmask"@.len() == 6);
    assert("selinux_opts"@.len() == 12);
    assert("name"@[0] == 'n');
    assert("user"@[0] == 'u');
    assert("image"@[0] == 'i');
    assert("netns"@[0] == 'n');
    assert("labels"@[0] == 'l');
    assert("mounts"@[0] == 'm');
    assert("unmask"@[0] == 'u');
    assert("volumes"@[0] == 'v' && "volumes"@[1] == 'o');
    assert("command"@[0] == 'c' && "command"@[1] == 'o');
    assert("cap_add"@[0] == 'c' && "cap_add"@[1] == 'a');
    assert("hostadd"@[0] == 'h' && "hostadd"@[1] == 'o');
    assert("devices"@[0] == 'd' && "devices"@[1] == 'e');
    assert("hostname"@[0] == 'h');
    assert("cap_drop"@[0] == 'c');
    assert("networks"@[0] == 'n');
    assert("entrypoint"@[0] == 'e');
    assert("secret_env"@[0] == 's');
    assert("dns_server"@[0] == 'd');
    assert("healthconfig"@[0] == 'h' && "healthconfig"@[1] == 'e');
    assert("stop_timeout"@[0] == 's' && "stop_timeout"@[1] == 't');
    assert("portmappings"@[0] == 'p' && "portmappings"@[1] == 'o');
    assert("selinux_opts"@[0] == 's' && "selinux_opts"@[1] == 'e');
    assert("no_new_privileges"@[0] == 'n');
    assert("image_pull_policy"@[0] == 'i');
}

/// Different values have different documents.
pub open spec fn is_faithful<T: ToJson>() -> bool {
    forall|a: T::V, b: T::V| #[trigger] T::json(a) == #[trigger] T::json(b) ==> a == b
}

proof fn lemma_text_faithful()
    ensures
        is_faithful::<String>(),
{
}

proof fn lemma_array<T: ToJson>(a: Seq<T::V>, b: Seq<T::V>)
    requires
        is_faithful::<T>(),
        array_json::<T>(a) == array_json::<T>(b),
    ensures
        a == b,
{
    let f = |item: T::V| T::json(item);
    let x = a.map_values(f);
    let y = b.map_values(f);
    assert(x == y);
    assert(x.len() == a.len() && y.len() == b.len());
    assert forall|i: int| 0 <= i < a.len() implies a[i] == b[i] by {
        assert(x[i] == T::json(a[i]) && y[i] == T::json(b[i]));
    }
    assert(a =~= b);
}

proof fn lemma_object<T: ToJson>(a: Map<Seq<char>, T::V>, b: Map<Seq<char>, T::V>)
    requires
        is_faithful::<T>(),
        object_json::<T>(a) == object_json::<T>(b),
    ensures
        a == b,
{
    let f = |item: T::V| T::json(item);
    let x = a.map_values(f);
    let y = b.map_values(f);
    assert(x == y);
    assert forall|key: Seq<char>| a.contains_key(key) <==> b.contains_key(key) by {
        assert(x.contains_key(key) == a.contains_key(key));
        assert(y.contains_key(key) == b.contains_key(key));
    }
    assert forall|key: Seq<char>| a.contains_key(key) implies a[key] == b[key] by {
        assert(x[key] == T::json(a[key]) && y[key] == T::json(b[key]));
    }
    assert(a =~= b);
}

proof fn lemma_port_mapping_faithful()
    ensures
        is_faithful::<PortMapping>(),
{
    reveal_strlit("host_port");
    reveal_strlit("container_port");
    reveal_strlit("protocol");
    assert("host_port"@.len() == 9);
    assert("container_port"@.len() == 14);
    assert("protocol"@.len() == 8);
    assert forall|a: PortMappingView, b: PortMappingView| #[trigger]
        PortMapping::json(a) == #[trigger] PortMapping::json(b) implies a == b by {
        assert(member(PortMapping::json(a), "host_port"@) == member(PortMapping::json(b), "host_port"@));
        assert(member(PortMapping::json(a), "container_port"@) == member(PortMapping::json(b), "container_port"@));
        assert(member(PortMapping::json(a), "protocol"@) == member(PortMapping::json(b), "protocol"@));
    }
}

proof fn lemma_mount_faithful()
    ensures
        is_faithful::<Mount>(),
{
    reveal_strlit("type");
    reveal_strlit("source");
    reveal_strlit("destination");
    reveal_strlit("options");
    assert("type"@.len() == 4);
    assert("source"@.len() == 6);
    assert("destination"@.len() == 11);
    assert("options"@.len() == 7);
    lemma_text_faithful();
    assert forall|a: MountView, b: MountView| #[trigger]
        Mount::json(a) == #[trigger] Mount::json(b) implies a == b by {
        assert(member(Mount::json(a), "type"@) == member(Mount::json(b), "type"@));
        assert(member(Mount::json(a), "source"@) == member(Mount::json(b), "source"@));
        assert(member(Mount::json(a), "destination"@) == member(Mount::json(b), "destination"@));
        assert(member(Mount::json(a), "options"@) == member(Mount::json(b), "options"@));
        if a.options.len() > 0 && b.options.len() > 0 {
            lemma_array::<String>(a.options, b.options);
        }
        assert(a.options =~= b.options);
    }
}

proof fn lemma_image_volume_faithful()
    ensures
        is_faithful::<ImageVolume>(),
{
    reveal_strlit("source");
    reveal_strlit("destination");
    reveal_strlit("rw");
    assert("source"@.len() == 6);
    assert("destination"@.len() == 11);
    assert("rw"@.len() == 2);
    assert forall|a: ImageVolumeView, b: ImageVolumeView| #[trigger]
        ImageVolume::json(a) == #[trigger] ImageVolume::json(b) implies a == b by {
        assert(member(ImageVolume::json(a), "source"@) == member(ImageVolume::json(b), "source"@));
        assert(member(ImageVolume::json(a), "destination"@) == member(ImageVolume::json(b), "destination"@));
        assert(member(ImageVolume::json(a), "rw"@) == member(ImageVolume::json(b), "rw"@));
    }
}

proof fn lemma_named_volume_faithful()
    ensures
        is_faithful::<NamedVolume>(),
{
    reveal_strlit("name");
    reveal_strlit("dest");
    reveal_strlit("options");
    assert("name"@.len() == 4 && "name"@[0] == 'n');
    assert("dest"@.len() == 4 && "dest"@[0] == 'd');
    assert("options"@.len() == 7);
    lemma_text_faithful();
    assert forall|a: NamedVolumeView, b: NamedVolumeView| #[trigger]
        NamedVolume::json(a) == #[trigger] NamedVolume::json(b) implies a == b by {
        assert(member(NamedVolume::json(a), "name"@) == member(NamedVolume::json(b), "name"@));
        assert(member(NamedVolume::json(a), "dest"@) == member(NamedVolume::json(b), "dest"@));
        assert(member(NamedVolume::json(a), "options"@) == member(NamedVolume::json(b), "options"@));
        lemma_array::<String>(a.options, b.options);
    }
}

proof fn lemma_health_config_faithful()
    ensures
        is_faithful::<HealthConfig>(),
{
    reveal_strlit("test");
    reveal_strlit("Interval");
    reveal_strlit("Timeout");
    reveal_strlit("Retries");
    reveal_strlit("StartPeriod");
    assert("test"@.len() == 4);
    assert("Interval"@.len() == 8);
    assert("Timeout"@.len() == 7 && "Timeout"@[0] == 'T');
    assert("Retries"@.len() == 7 && "Retries"@[0] == 'R');
    assert("StartPeriod"@.len() == 11);
    lemma_text_faithful();
    assert forall|a: HealthConfigView, b: HealthConfigView| #[trigger]
        HealthConfig::json(a) == #[trigger] HealthConfig::json(b) implies a == b by {
        assert(member(HealthConfig::json(a), "test"@) == member(HealthConfig::json(b), "test"@));
        assert(member(HealthConfig::json(a), "Interval"@) == member(HealthConfig::json(b), "Interval"@));
        assert(member(HealthConfig::json(a), "Timeout"@) == member(HealthConfig::json(b), "Timeout"@));
        assert(member(HealthConfig::json(a), "Retries"@) == member(HealthConfig::json(b), "Retries"@));
        assert(member(HealthConfig::json(a), "StartPeriod"@) == member(HealthConfig::json(b), "StartPeriod"@));
        lemma_array::<String>(a.test, b.test);
    }
}

proof fn lemma_cpu_limits_faithful()
    ensures
        is_faithful::<CpuLimits>(),
{
    reveal_strlit("quota");
    reveal_strlit("period");
    assert("quota"@.len() == 5);
    assert("period"@.len() == 6);
    assert forall|a: CpuLimitsView, b: CpuLimitsView| #[trigger]
        CpuLimits::json(a) == #[trigger] CpuLimits::json(b) implies a == b by {
        assert(member(CpuLimits::json(a), "quota"@) == member(CpuLimits::json(b), "quota"@));
        assert(member(CpuLimits::json(a), "period"@) == member(CpuLimits::json(b), "period"@));
    }
}

proof fn lemma_memory_limits_faithful()
    ensures
        is_faithful::<MemoryLimits>(),
{
    reveal_strlit("limit");
    assert("limit"@.len() == 5);
    assert forall|a: MemoryLimitsView, b: MemoryLimitsView| #[trigger]
        MemoryLimits::json(a) == #[trigger] MemoryLimits::json(b) implies a == b by {
        assert(member(MemoryLimits::json(a), "limit"@) == member(MemoryLimits::json(b), "limit"@));
    }
}

proof fn lemma_resource_limits_faithful()
    ensures
        is_faithful::<ResourceLimits>(),
{
    reveal_strlit("cpu");
    reveal_strlit("memory");
    assert("cpu"@.len() == 3);
    assert("memory"@.len() == 6);
    lemma_cpu_limits_faithful();
    lemma_memory_limits_faithful();
    assert forall|a: ResourceLimitsView, b: ResourceLimitsView| #[trigger]
        ResourceLimits::json(a) == #[trigger] ResourceLimits::json(b) implies a == b by {
        assert(member(ResourceLimits::json(a), "cpu"@) == member(ResourceLimits::json(b), "cpu"@));
        assert(member(ResourceLimits::json(a), "memory"@) == member(ResourceLimits::json(b), "memory"@));
    }
}

proof fn lemma_netns_faithful()
    ensures
        is_faithful::<NetNS>(),
{
    reveal_strlit("nsmode");
    assert("nsmode"@.len() == 6);
    assert forall|a: NetNSView, b: NetNSView| #[trigger]
        NetNS::json(a) == #[trigger] NetNS::json(b) implies a == b by {
        assert(member(NetNS::json(a), "nsmode"@) == member(NetNS::json(b), "nsmode"@));
    }
}

proof fn lemma_network_attachment_faithful()
    ensures
        is_faithful::<NetworkAttachment>(),
{
    reveal_strlit("static_ip");
    assert("static_ip"@.len() == 9);
    assert forall|a: NetworkAttachmentView, b: NetworkAttachmentView| #[trigger]
        NetworkAttachment::json(a) == #[trigger] NetworkAttachment::json(b) implies a == b by {
        assert(member(NetworkAttachment::json(a), "static_ip"@) == member(NetworkAttachment::json(b), "static_ip"@));
    }
}

proof fn lemma_linux_device_faithful()
    ensures
        is_faithful::<LinuxDevice>(),
{
    reveal_strlit("path");
    assert("path"@.len() == 4);
    assert forall|a: LinuxDeviceView, b: LinuxDeviceView| #[trigger]
        LinuxDevice::json(a) == #[trigger] LinuxDevice::json(b) implies a == b by {
        assert(member(LinuxDevice::json(a), "path"@) == member(LinuxDevice::json(b), "path"@));
    }
}

/// Nothing of a container is lost in its document: containers that differ have
/// documents that differ.
pub proof fn law_document_determines_container(a: ContainerSpecView, b: ContainerSpecView)
    requires
        ContainerSpec::json(a) == ContainerSpec::json(b),
    ensures
        a == b,
{
    law_document_members(a);
    law_document_members(b);
    lemma_text_faithful();
    lemma_named_volume_faithful();
    lemma_image_volume_faithful();
    lemma_health_config_faithful();
    lemma_resource_limits_faithful();
    lemma_netns_faithful();
    lemma_network_attachment_faithful();
    lemma_linux_device_faithful();
    lemma_mount_faithful();
    lemma_port_mapping_faithful();
    lemma_object::<String>(a.labels, b.labels);
    lemma_object::<String>(a.env, b.env);
    lemma_object::<String>(a.secret_env, b.secret_env);
    lemma_object::<NetworkAttachment>(a.networks, b.networks);
    lemma_array::<NamedVolume>(a.volumes, b.volumes);
    lemma_array::<ImageVolume>(a.image_volumes, b.image_volumes);
    lemma_array::<String>(a.entrypoint, b.entrypoint);
    lemma_array::<String>(a.command, b.command);
    lemma_array::<String>(a.cap_drop, b.cap_drop);
    lemma_array::<String>(a.cap_add, b.cap_add);
    lemma_array::<String>(a.hostadd, b.hostadd);
    lemma_array::<Mount>(a.mounts, b.mounts);
    lemma_array::<PortMapping>(a.portmappings, b.portmappings);
    if a.devices is Some && b.devices is Some {
        lemma_array::<LinuxDevice>(a.devices->Some_0, b.devices->Some_0);
    }
    if a.dns_server.len() > 0 && b.dns_server.len() > 0 {
        lemma_array::<String>(a.dns_server, b.dns_server);
    }
    if a.unmask.len() > 0 && b.unmask.len() > 0 {
        lemma_array::<String>(a.unmask, b.unmask);
    }
    if a.selinux_opts.len() > 0 && b.selinux_opts.len() > 0 {
        lemma_array::<String>(a.selinux_opts, b.selinux_opts);
    }
    assert(a.dns_server =~= b.dns_server);
    assert(a.unmask =~= b.unmask);
    assert(a.selinux_opts =~= b.selinux_opts);
}

/// An array has the documents of all items, in their order.
pub proof fn law_array<T: ToJson>(items: Seq<T::V>, i: int)
    ensures
        array_json::<T>(items) is Array,
        array_json::<T>(items)->Array_0.len() == items.len(),
        0 <= i < items.len() ==> array_json::<T>(items)->Array_0[i] == T::json(items[i]),
{
}

/// An object has the document of each value under its key, and no other members.
pub proof fn law_object<T: ToJson>(map: Map<Seq<char>, T::V>, key: Seq<char>)
    ensures
        object_json::<T>(map) is Object,
        map.contains_key(key) ==> member(object_json::<T>(map), key) == Some(T::json(map[key])),
        !map.contains_key(key) ==> member(object_json::<T>(map), key) is None,
{
}

/// The document of a text is the text.
pub proof fn law_text(text: Seq<char>)
    ensures
        String::json(text) == Json::Text(text),
{
}

/// The members of a port mapping.
pub proof fn law_port_mapping_members(view: PortMappingView, key: Seq<char>)
    ensures
        ({
            let object = PortMapping::json(view);
            &&& object is Object
            &&& member(object, "host_port"@) == Some(Json::Number(view.host_port))
            &&& member(object, "container_port"@) == Some(Json::Number(view.container_port))
            &&& member(object, "protocol"@) == Some(Json::Text(view.protocol))
            &&& member(object, key) is Some ==> key == "host_port"@ || key == "container_port"@ || key == "protocol"@
        }),
{
    reveal_strlit("host_port");
    reveal_strlit("container_port");
    reveal_strlit("protocol");
    assert("host_port"@.len() == 9);
    assert("container_port"@.len() == 14);
    assert("protocol"@.len() == 8);
}

/// The members of a mount; options only where there are any.
pub proof fn law_mount_members(view: MountView, key: Seq<char>)
    ensures
        ({
            let object = Mount::json(view);
            &&& object is Object
            &&& member(object, "type"@) == Some(Json::Text(view.kind))
            &&& member(object, "source"@) == Some(Json::Text(view.source))
            &&& member(object, "destination"@) == Some(Json::Text(view.destination))
            &&& member(object, "options"@) == if view.options.len() == 0 {
                None
            } else {
                Some(array_json::<String>(view.options))
            }
            &&& member(object, key) is Some ==> key == "type"@ || key == "source"@ || key == "destination"@ || key == "options"@
        }),
{
    reveal_strlit("type");
    reveal_strlit("source");
    reveal_strlit("destination");
    reveal_strlit("options");
    assert("type"@.len() == 4);
    assert("source"@.len() == 6);
    assert("destination"@.len() == 11);
    assert("options"@.len() == 7);
}

/// The members of an image volume.
pub proof fn law_image_volume_members(view: ImageVolumeView, key: Seq<char>)
    ensures
        ({
            let object = ImageVolume::json(view);
            &&& object is Object
            &&& member(object, "source"@) == Some(Json::Text(view.source))
            &&& member(object, "destination"@) == Some(Json::Text(view.destination))
            &&& member(object, "rw"@) == Some(Json::Bool(view.rw))
            &&& member(object, key) is Some ==> key == "source"@ || key == "destination"@ || key == "rw"@
        }),
{
    reveal_strlit("source");
    reveal_strlit("destination");
    reveal_strlit("rw");
    assert("source"@.len() == 6);
    assert("destination"@.len() == 11);
    assert("rw"@.len() == 2);
}

/// The members of a named volume.
pub proof fn law_named_volume_members(view: NamedVolumeView, key: Seq<char>)
    ensures
        ({
            let object = NamedVolume::json(view);
            &&& object is Object
            &&& member(object, "name"@) == Some(Json::Text(view.name))
            &&& member(object, "dest"@) == Some(Json::Text(view.dest))
            &&& member(object, "options"@) == Some(array_json::<String>(view.options))
            &&& member(object, key) is Some ==> key == "name"@ || key == "dest"@ || key == "options"@
        }),
{
    reveal_strlit("name");
    reveal_strlit("dest");
    reveal_strlit("options");
    assert("name"@.len() == 4 && "name"@[0] == 'n');
    assert("dest"@.len() == 4 && "dest"@[0] == 'd');
    assert("options"@.len() == 7);
}

/// The members of a health check.
pub proof fn law_health_config_members(view: HealthConfigView, key: Seq<char>)
    ensures
        ({
            let object = HealthConfig::json(view);
            &&& object is Object
            &&& member(object, "test"@) == Some(array_json::<String>(view.test))
            &&& member(object, "Interval"@) == Some(Json::Number(view.interval))
            &&& member(object, "Timeout"@) == Some(Json::Number(view.timeout))
            &&& member(object, "Retries"@) == Some(Json::Number(view.retries))
            &&& member(object, "StartPeriod"@) == Some(Json::Number(view.start_period))
            &&& member(object, key) is Some ==> key == "test"@ || key == "Interval"@ || key == "Timeout"@ || key == "Retries"@ || key == "StartPeriod"@
        }),
{
    reveal_strlit("test");
    reveal_strlit("Interval");
    reveal_strlit("Timeout");
    reveal_strlit("Retries");
    reveal_strlit("StartPeriod");
    assert("test"@.len() == 4);
    assert("Interval"@.len() == 8);
    assert("Timeout"@.len() == 7 && "Timeout"@[0] == 'T');
    assert("Retries"@.len() == 7 && "Retries"@[0] == 'R');
    assert("StartPeriod"@.len() == 11);
}

/// The members of a CPU limit.
pub proof fn law_cpu_limits_members(view: CpuLimitsView, key: Seq<char>)
    ensures
        ({
            let object = CpuLimits::json(view);
            &&& object is Object
            &&& member(object, "quota"@) == Some(Json::Number(view.quota))
            &&& member(object, "period"@) == Some(Json::Number(view.period))
            &&& member(object, key) is Some ==> key == "quota"@ || key == "period"@
        }),
{
    reveal_strlit("quota");
    reveal_strlit("period");
    assert("quota"@.len() == 5);
    assert("period"@.len() == 6);
}

/// The member of a memory limit.
pub proof fn law_memory_limits_members(view: MemoryLimitsView, key: Seq<char>)
    ensures
        ({
            let object = MemoryLimits::json(view);
            &&& object is Object
            &&& member(object, "limit"@) == Some(Json::Number(view.limit))
            &&& member(object, key) is Some ==> key == "limit"@
        }),
{
    reveal_strlit("limit");
    assert("limit"@.len() == 5);
}

/// The members of resource limits.
pub proof fn law_resource_limits_members(view: ResourceLimitsView, key: Seq<char>)
    ensures
        ({
            let object = ResourceLimits::json(view);
            &&& object is Object
            &&& member(object, "cpu"@) == Some(CpuLimits::json(view.cpu))
            &&& member(object, "memory"@) == Some(MemoryLimits::json(view.memory))
            &&& member(object, key) is Some ==> key == "cpu"@ || key == "memory"@
        }),
{
    reveal_strlit("cpu");
    reveal_strlit("memory");
    assert("cpu"@.len() == 3);
    assert("memory"@.len() == 6);
}

/// The member of a network namespace.
pub proof fn law_netns_members(view: NetNSView, key: Seq<char>)
    ensures
        ({
            let object = NetNS::json(view);
            &&& object is Object
            &&& member(object, "nsmode"@) == Some(Json::Text(view.nsmode))
            &&& member(object, key) is Some ==> key == "nsmode"@
        }),
{
    reveal_strlit("nsmode");
    assert("nsmode"@.len() == 6);
}

/// The member of a network attachment, only where there is an address.
pub proof fn law_network_attachment_members(view: NetworkAttachmentView, key: Seq<char>)
    ensures
        ({
            let object = NetworkAttachment::json(view);
            &&& object is Object
            &&& member(object, "static_ip"@) == match view.static_ip {
                Some(address) => Some(Json::Text(address)),
                None => None,
            }
            &&& member(object, key) is Some ==> key == "static_ip"@
        }),
{
    reveal_strlit("static_ip");
    assert("static_ip"@.len() == 9);
}

/// The member of a device.
pub proof fn law_linux_device_members(view: LinuxDeviceView, key: Seq<char>)
    ensures
        ({
            let object = LinuxDevice::json(view);
            &&& object is Object
            &&& member(object, "path"@) == Some(Json::Text(view.path))
            &&& member(object, key) is Some ==> key == "path"@
        }),
{
    reveal_strlit("path");
    assert("path"@.len() == 4);
}

/// The document of a container has no members but those of its parts.
pub proof fn law_document_has_no_other_members(view: ContainerSpecView, key: Seq<char>)
    ensures
        ContainerSpec::json(view) is Object,
        member(ContainerSpec::json(view), key) is Some ==> ({
            ||| key == "name"@
            ||| key == "image"@
            ||| key == "labels"@
            ||| key == "env"@
            ||| key == "volumes"@
            ||| key == "image_volumes"@
            ||| key == "hostname"@
            ||| key == "entrypoint"@
            ||| key == "command"@
            ||| key == "user"@
            ||| key == "cap_drop"@
            ||| key == "cap_add"@
            ||| key == "no_new_privileges"@
            ||| key == "seccomp_profile_path"@
            ||| key == "image_pull_policy"@
            ||| key == "healthconfig"@
            ||| key == "resource_limits"@
            ||| key == "secret_env"@
            ||| key == "stop_timeout"@
            ||| key == "hostadd"@
            ||| key == "netns"@
            ||| key == "networks"@
            ||| key == "mounts"@
            ||| key == "portmappings"@
            ||| key == "devices"@
            ||| key == "dns_server"@
            ||| key == "unmask"@
            ||| key == "selinux_opts"@
        }),
{
}

} // verus!
