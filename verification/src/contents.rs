//! What each container holds, part by part, for every sandbox and configuration.
use crate::container::{
    agent_container, agent_env, container_labels, container_name_text, cpu_quota, gpu_devices,
    image_text, internal_network_name_text, limits, managed_labels, memory_limit, nested_container, nested_env,
    proxy_container, proxy_container_name_text, proxy_env, required_env, secret_name_text,
    short_id_text, sidecar_env, tls_volume_name_text, user_env, volume_name_text, workload_env,
};
use crate::container_spec::{ContainerSpecView, HealthConfigView, MountView, NamedVolumeView};
use crate::laws::{
    is_managed_name, is_required_name, is_sidecar_name, lemma_label_names, lemma_required_names,
    lemma_sidecar_names,
};
use crate::quantity::{cpu_micros, law_memory_units, memory_bytes};
use crate::sandbox::{ConfigView, Names, ResourceRequirementsView, SandboxView, TemplateView};
use crate::text::decimal_text;
use crate::views::seq_view;
use vstd::prelude::*;

verus! {

/// The template that a sandbox is given, if any.
pub open spec fn given_template(sandbox: SandboxView) -> Option<TemplateView> {
    if sandbox.spec is Some {
        sandbox.spec->Some_0.template
    } else {
        None
    }
}

/// The limits that a sandbox is given, if any.
pub open spec fn given_resources(sandbox: SandboxView) -> Option<ResourceRequirementsView> {
    if given_template(sandbox) is Some {
        given_template(sandbox)->Some_0.resources
    } else {
        None
    }
}

/// A GPU is asked for.
pub open spec fn asks_for_gpu(sandbox: SandboxView) -> bool {
    sandbox.spec is Some && sandbox.spec->Some_0.gpu
}

/// Client TLS material is configured in full.
pub open spec fn has_tls_material(config: ConfigView) -> bool {
    &&& config.guest_tls_ca is Some
    &&& config.guest_tls_cert is Some
    &&& config.guest_tls_key is Some
}

/// `value` stands under `key`.
pub open spec fn maps(names: Names, key: Seq<char>, value: Seq<char>) -> bool {
    names.contains_key(key) && names[key] == value
}

/// The items of a list, in their order, are `a` alone.
pub open spec fn only(items: Seq<Seq<char>>, a: Seq<char>) -> bool {
    items.len() == 1 && items[0] == a
}

/// A sandbox is for inner containers exactly if its template says so by mode 2, and
/// wants a GPU exactly if its spec does; TLS is enabled exactly if all three paths
/// are there.
pub proof fn law_requests(sandbox: SandboxView, config: ConfigView)
    ensures
        sandbox.template() == given_template(sandbox),
        sandbox.resources() == given_resources(sandbox),
        sandbox.is_nested() <==> given_template(sandbox) is Some && given_template(
            sandbox,
        )->Some_0.mode == 2,
        sandbox.wants_gpu() <==> asks_for_gpu(sandbox),
        config.tls_enabled() <==> has_tls_material(config),
{
}

/// A name is its fixed prefix, then what it is made from, and for workspace volumes
/// a fixed suffix; nothing is cut off or changed.
pub proof fn law_names(text: Seq<char>)
    ensures
        container_name_text(text).len() == 18 + text.len(),
        container_name_text(text).take(18) == "openshell-sandbox-"@,
        container_name_text(text).skip(18) == text,
        proxy_container_name_text(text).len() == 16 + text.len(),
        proxy_container_name_text(text).take(16) == "openshell-proxy-"@,
        proxy_container_name_text(text).skip(16) == text,
        volume_name_text(text).len() == 28 + text.len(),
        volume_name_text(text).take(18) == "openshell-sandbox-"@,
        volume_name_text(text).skip(18).take(text.len() as int) == text,
        volume_name_text(text).skip(18).skip(text.len() as int) == "-workspace"@,
        tls_volume_name_text(text).take(14) == "openshell-tls-"@,
        tls_volume_name_text(text).skip(14) == text,
        internal_network_name_text(text).take(14) == "openshell-sbx-"@,
        internal_network_name_text(text).skip(14) == text,
        secret_name_text(text).take(20) == "openshell-handshake-"@,
        secret_name_text(text).skip(20) == text,
{
    reveal_strlit("openshell-sandbox-");
    reveal_strlit("openshell-proxy-");
    reveal_strlit("-workspace");
    reveal_strlit("openshell-tls-");
    reveal_strlit("openshell-sbx-");
    reveal_strlit("openshell-handshake-");
    assert("openshell-sandbox-"@.len() == 18 && "openshell-proxy-"@.len() == 16);
    assert("-workspace"@.len() == 10 && "openshell-tls-"@.len() == 14);
    assert("openshell-sbx-"@.len() == 14 && "openshell-handshake-"@.len() == 20);
    assert(container_name_text(text).take(18) =~= "openshell-sandbox-"@);
    assert(container_name_text(text).skip(18) =~= text);
    assert(proxy_container_name_text(text).take(16) =~= "openshell-proxy-"@);
    assert(proxy_container_name_text(text).skip(16) =~= text);
    assert(volume_name_text(text).take(18) =~= "openshell-sandbox-"@);
    assert(volume_name_text(text).skip(18).take(text.len() as int) =~= text);
    assert(volume_name_text(text).skip(18).skip(text.len() as int) =~= "-workspace"@);
    assert(tls_volume_name_text(text).take(14) =~= "openshell-tls-"@);
    assert(tls_volume_name_text(text).skip(14) =~= text);
    assert(internal_network_name_text(text).take(14) =~= "openshell-sbx-"@);
    assert(internal_network_name_text(text).skip(14) =~= text);
    assert(secret_name_text(text).take(20) =~= "openshell-handshake-"@);
    assert(secret_name_text(text).skip(20) =~= text);
}

/// A short ID is as long as the ID, but at most 12, and has its characters.
pub proof fn law_short_id_characters(id: Seq<char>, i: int)
    ensures
        short_id_text(id).len() == if id.len() < 12 {
            id.len()
        } else {
            12
        },
        0 <= i < short_id_text(id).len() ==> short_id_text(id)[i] == id[i],
{
}

/// Whatever else a template holds: if it names an image, that is the image of all
/// containers of the sandbox, and the workload is told so. Every other sandbox has
/// the default image.
pub proof fn law_image(
    sandbox: SandboxView,
    config: ConfigView,
    internal_network: Seq<char>,
    proxy_ip: Seq<char>,
    tls_volume: Seq<char>,
    dns_servers: Seq<Seq<char>>,
    selinux_enabled: bool,
)
    ensures
        ({
            let image = image_text(sandbox, config);
            let named = given_template(sandbox) is Some && given_template(sandbox)->Some_0.image
                != Seq::<char>::empty();
            let nested = nested_container(sandbox, config, selinux_enabled);
            let proxy = proxy_container(sandbox, config, internal_network, dns_servers);
            let agent = agent_container(
                sandbox,
                config,
                internal_network,
                proxy_ip,
                tls_volume,
                selinux_enabled,
            );
            &&& named ==> image == given_template(sandbox)->Some_0.image
            &&& !named ==> image == config.default_image
            &&& named ==> nested.image == given_template(sandbox)->Some_0.image
            &&& named ==> proxy.image == given_template(sandbox)->Some_0.image
            &&& named ==> agent.image == given_template(sandbox)->Some_0.image
            &&& !named ==> nested.image == config.default_image
            &&& !named ==> proxy.image == config.default_image
            &&& !named ==> agent.image == config.default_image
            &&& maps(nested.env, "OPENSHELL_CONTAINER_IMAGE"@, nested.image)
            &&& maps(agent.env, "OPENSHELL_CONTAINER_IMAGE"@, agent.image)
        }),
{
    if given_template(sandbox) is Some {
        assert(given_template(sandbox)->Some_0.image.len() == 0
            ==> given_template(sandbox)->Some_0.image =~= Seq::<char>::empty());
    }
    lemma_required_names(sandbox, config, image_text(sandbox, config));
    lemma_sidecar_names(config, proxy_ip);
    reveal_strlit("OPENSHELL_CONTAINER_IMAGE");
    reveal_strlit("OPENSHELL_ENDPOINT");
    assert("OPENSHELL_CONTAINER_IMAGE"@.len() == 25 && "OPENSHELL_ENDPOINT"@.len() == 18);
}

/// A quantity that stands for something is the limit, however large or small; where
/// the template gives none, or none that is valid, the limit is the default.
pub proof fn law_limits(
    sandbox: SandboxView,
    config: ConfigView,
    internal_network: Seq<char>,
    proxy_ip: Seq<char>,
    tls_volume: Seq<char>,
    dns_servers: Seq<Seq<char>>,
    selinux_enabled: bool,
)
    ensures
        ({
            let own = limits(cpu_quota(sandbox), memory_limit(sandbox));
            let nested = nested_container(sandbox, config, selinux_enabled).resource_limits;
            let proxy = proxy_container(
                sandbox,
                config,
                internal_network,
                dns_servers,
            ).resource_limits;
            let agent = agent_container(
                sandbox,
                config,
                internal_network,
                proxy_ip,
                tls_volume,
                selinux_enabled,
            ).resource_limits;
            let given = given_resources(sandbox);
            let cpu = if given is Some {
                cpu_micros(given->Some_0.cpu_limit)
            } else {
                None
            };
            let memory = if given is Some {
                memory_bytes(given->Some_0.memory_limit)
            } else {
                None
            };
            &&& cpu is Some ==> own.cpu.quota == cpu->Some_0 && nested.cpu.quota == cpu->Some_0
                && agent.cpu.quota == cpu->Some_0
            &&& cpu is None ==> own.cpu.quota == 200_000 && nested.cpu.quota == 200_000
                && agent.cpu.quota == 200_000
            &&& memory is Some ==> own.memory.limit == memory->Some_0 && nested.memory.limit
                == memory->Some_0 && agent.memory.limit == memory->Some_0
            &&& memory is None ==> own.memory.limit == 4_294_967_296 && nested.memory.limit
                == 4_294_967_296 && agent.memory.limit == 4_294_967_296
            &&& own.cpu.period == 100_000 && nested.cpu.period == 100_000
            &&& agent.cpu.period == 100_000 && proxy.cpu.period == 100_000
            &&& proxy.cpu.quota == 100_000 && proxy.memory.limit == 536_870_912
        }),
{
}

/// A memory limit of `n` GiB is `n * 2^30` bytes for the containers of the sandbox,
/// whenever that fits 64 bits.
pub proof fn law_gibibytes(
    sandbox: SandboxView,
    config: ConfigView,
    internal_network: Seq<char>,
    proxy_ip: Seq<char>,
    tls_volume: Seq<char>,
    selinux_enabled: bool,
    n: nat,
)
    requires
        given_resources(sandbox) is Some,
        given_resources(sandbox)->Some_0.memory_limit == decimal_text(n) + "Gi"@,
        n * 0x4000_0000 <= u64::MAX,
    ensures
        nested_container(sandbox, config, selinux_enabled).resource_limits.memory.limit == n
            * 0x4000_0000,
        agent_container(
            sandbox,
            config,
            internal_network,
            proxy_ip,
            tls_volume,
            selinux_enabled,
        ).resource_limits.memory.limit == n * 0x4000_0000,
{
    law_memory_units(n);
}

/// The agent has exactly the one device of all GPUs if a GPU is asked for, and no
/// devices if not. The proxy has none. A nested container has, last, the device of
/// its inner storage, and before it that of all GPUs if a GPU is asked for.
pub proof fn law_container_devices(
    sandbox: SandboxView,
    config: ConfigView,
    internal_network: Seq<char>,
    proxy_ip: Seq<char>,
    tls_volume: Seq<char>,
    dns_servers: Seq<Seq<char>>,
    selinux_enabled: bool,
)
    ensures
        ({
            let nested = nested_container(sandbox, config, selinux_enabled).devices;
            let proxy = proxy_container(sandbox, config, internal_network, dns_servers).devices;
            let agent = agent_container(
                sandbox,
                config,
                internal_network,
                proxy_ip,
                tls_volume,
                selinux_enabled,
            ).devices;
            &&& asks_for_gpu(sandbox) ==> agent is Some && agent->Some_0.len() == 1
                && agent->Some_0[0].path == "nvidia.com/gpu=all"@
            &&& !asks_for_gpu(sandbox) ==> agent is None
            &&& gpu_devices(sandbox) == agent
            &&& proxy is None
            &&& nested is Some
            &&& asks_for_gpu(sandbox) ==> nested->Some_0.len() == 2 && nested->Some_0[0].path
                == "nvidia.com/gpu=all"@
            &&& !asks_for_gpu(sandbox) ==> nested->Some_0.len() == 1
            &&& nested->Some_0.last().path == "/dev/fuse"@
        }),
{
}

/// A volume of one option.
pub open spec fn is_volume(
    volume: NamedVolumeView,
    name: Seq<char>,
    dest: Seq<char>,
    option: Seq<char>,
) -> bool {
    volume.name == name && volume.dest == dest && only(volume.options, option)
}

/// The workspace volume of the sandbox is at `/sandbox`, writable, in the agent and
/// in a nested container. The TLS volume that the agent is given is there read-only;
/// the proxy has that of the sandbox, writable. There are no other volumes.
pub proof fn law_volumes(
    sandbox: SandboxView,
    config: ConfigView,
    internal_network: Seq<char>,
    proxy_ip: Seq<char>,
    tls_volume: Seq<char>,
    dns_servers: Seq<Seq<char>>,
    selinux_enabled: bool,
)
    ensures
        ({
            let nested = nested_container(sandbox, config, selinux_enabled).volumes;
            let proxy = proxy_container(sandbox, config, internal_network, dns_servers).volumes;
            let agent = agent_container(
                sandbox,
                config,
                internal_network,
                proxy_ip,
                tls_volume,
                selinux_enabled,
            ).volumes;
            let workspace = "openshell-sandbox-"@ + sandbox.id + "-workspace"@;
            &&& nested.len() == 1 && proxy.len() == 1 && agent.len() == 2
            &&& is_volume(nested[0], workspace, "/sandbox"@, "rw"@)
            &&& is_volume(agent[0], workspace, "/sandbox"@, "rw"@)
            &&& is_volume(agent[1], tls_volume, "/openshell-tls"@, "ro"@)
            &&& is_volume(proxy[0], "openshell-tls-"@ + sandbox.id, "/openshell-tls"@, "rw"@)
        }),
{
}

/// The DNS servers of the proxy are those that it is given, all of them in their
/// order, however many; the other containers have none of their own.
pub proof fn law_dns_servers(
    sandbox: SandboxView,
    config: ConfigView,
    internal_network: Seq<char>,
    proxy_ip: Seq<char>,
    tls_volume: Seq<char>,
    host_dns_servers: Seq<String>,
    selinux_enabled: bool,
    i: int,
)
    ensures
        ({
            let proxy = proxy_container(
                sandbox,
                config,
                internal_network,
                seq_view(host_dns_servers),
            ).dns_server;
            let agent = agent_container(
                sandbox,
                config,
                internal_network,
                proxy_ip,
                tls_volume,
                selinux_enabled,
            ).dns_server;
            &&& proxy.len() == host_dns_servers.len()
            &&& 0 <= i < host_dns_servers.len() ==> proxy[i] == host_dns_servers[i]@
            &&& agent.len() == 0
            &&& nested_container(sandbox, config, selinux_enabled).dns_server.len() == 0
        }),
{
}

/// A bind mount that cannot be written, relabeled or not.
pub open spec fn is_read_only_bind(
    mount: MountView,
    source: Seq<char>,
    destination: Seq<char>,
    relabeled: bool,
) -> bool {
    &&& mount.kind == "bind"@
    &&& mount.source == source
    &&& mount.destination == destination
    &&& mount.options.len() == if relabeled {
        3int
    } else {
        2int
    }
    &&& mount.options[0] == "ro"@
    &&& mount.options[1] == "rbind"@
    &&& relabeled ==> mount.options[2] == "z"@
}

/// A writable tmpfs for network namespaces.
pub open spec fn is_netns_tmpfs(mount: MountView) -> bool {
    &&& mount.kind == "tmpfs"@
    &&& mount.source == "tmpfs"@
    &&& mount.destination == "/run/netns"@
    &&& mount.options.len() == 3
    &&& mount.options[0] == "rw"@
    &&& mount.options[1] == "nosuid"@
    &&& mount.options[2] == "nodev"@
}

/// The mounts are, in order: the credentials, in a nested container that has them
/// configured; the tmpfs; and the three parts of the TLS material where all three
/// are configured. TLS material is relabeled exactly where SELinux is enabled,
/// credentials never. There are no other mounts, and none in the proxy.
pub proof fn law_mounts(
    sandbox: SandboxView,
    config: ConfigView,
    internal_network: Seq<char>,
    proxy_ip: Seq<char>,
    tls_volume: Seq<char>,
    dns_servers: Seq<Seq<char>>,
    selinux_enabled: bool,
)
    ensures
        ({
            let nested = nested_container(sandbox, config, selinux_enabled).mounts;
            let agent = agent_container(
                sandbox,
                config,
                internal_network,
                proxy_ip,
                tls_volume,
                selinux_enabled,
            ).mounts;
            let own = if config.adc_host_path is Some {
                1int
            } else {
                0int
            };
            let tls = if has_tls_material(config) {
                3int
            } else {
                0int
            };
            &&& proxy_container(sandbox, config, internal_network, dns_servers).mounts.len() == 0
            &&& agent.len() == 1 + tls
            &&& nested.len() == own + agent.len()
            &&& config.adc_host_path is Some ==> is_read_only_bind(
                nested[0],
                config.adc_host_path->Some_0,
                "/run/gcloud/adc.json"@,
                false,
            )
            &&& is_netns_tmpfs(agent[0]) && is_netns_tmpfs(nested[own])
            &&& has_tls_material(config) ==> {
                &&& is_read_only_bind(
                    agent[1],
                    config.guest_tls_ca->Some_0,
                    "/etc/openshell/tls/client/ca.crt"@,
                    selinux_enabled,
                )
                &&& is_read_only_bind(
                    agent[2],
                    config.guest_tls_cert->Some_0,
                    "/etc/openshell/tls/client/tls.crt"@,
                    selinux_enabled,
                )
                &&& is_read_only_bind(
                    agent[3],
                    config.guest_tls_key->Some_0,
                    "/etc/openshell/tls/client/tls.key"@,
                    selinux_enabled,
                )
                &&& nested[own + 1] == agent[1]
                &&& nested[own + 2] == agent[2]
                &&& nested[own + 3] == agent[3]
            }
        }),
{
}

/// SELinux has a say in nothing but the mounts.
pub proof fn law_selinux_only_in_mounts(
    sandbox: SandboxView,
    config: ConfigView,
    internal_network: Seq<char>,
    proxy_ip: Seq<char>,
    tls_volume: Seq<char>,
    a: bool,
    b: bool,
)
    ensures
        ({
            let with_a = nested_container(sandbox, config, a);
            let with_b = nested_container(sandbox, config, b);
            with_a == ContainerSpecView { mounts: with_a.mounts, ..with_b }
        }),
        ({
            let with_a = agent_container(
                sandbox,
                config,
                internal_network,
                proxy_ip,
                tls_volume,
                a,
            );
            let with_b = agent_container(
                sandbox,
                config,
                internal_network,
                proxy_ip,
                tls_volume,
                b,
            );
            with_a == ContainerSpecView { mounts: with_a.mounts, ..with_b }
        }),
{
}

/// A container runs the supervisor from the supervisor's image, as root, and nothing
/// else; image, pull policy and stop timeout are the configured ones.
pub open spec fn runs_supervisor(container: ContainerSpecView, config: ConfigView) -> bool {
    &&& container.image_volumes.len() == 1
    &&& container.image_volumes[0].source == config.supervisor_image
    &&& container.image_volumes[0].destination == "/opt/openshell/bin"@
    &&& !container.image_volumes[0].rw
    &&& only(container.entrypoint, "/opt/openshell/bin/openshell-sandbox"@)
    &&& container.command.len() == 0
    &&& container.user == "0:0"@
    &&& container.seccomp_profile_path == "unconfined"@
    &&& container.image_pull_policy == config.image_pull_policy
    &&& container.stop_timeout == config.stop_timeout_secs
    &&& container.netns.nsmode == "bridge"@
}

/// A shell command is tried as often and as long as is fixed.
pub open spec fn is_shell_check(health: HealthConfigView, command: Seq<char>) -> bool {
    &&& health.test.len() == 2
    &&& health.test[0] == "CMD-SHELL"@
    &&& health.test[1] == command
    &&& health.interval == 3_000_000_000
    &&& health.timeout == 2_000_000_000
    &&& health.retries == 10
    &&& health.start_period == 5_000_000_000
}

/// All containers run the supervisor. The workload is healthy once its SSH server
/// is reachable on the configured socket or port, the proxy once its TLS material is
/// there. Each is named after the sandbox, and knows the host by its aliases.
pub proof fn law_process(
    sandbox: SandboxView,
    config: ConfigView,
    internal_network: Seq<char>,
    proxy_ip: Seq<char>,
    tls_volume: Seq<char>,
    dns_servers: Seq<Seq<char>>,
    selinux_enabled: bool,
)
    ensures
        ({
            let nested = nested_container(sandbox, config, selinux_enabled);
            let proxy = proxy_container(sandbox, config, internal_network, dns_servers);
            let agent = agent_container(
                sandbox,
                config,
                internal_network,
                proxy_ip,
                tls_volume,
                selinux_enabled,
            );
            let ready = "test -e /var/run/openshell-ssh-ready || test -S "@
                + config.sandbox_ssh_socket_path + " || ss -tlnp | grep -q :"@ + decimal_text(
                config.ssh_port,
            );
            &&& runs_supervisor(nested, config)
            &&& runs_supervisor(proxy, config)
            &&& runs_supervisor(agent, config)
            &&& is_shell_check(nested.healthconfig, ready)
            &&& is_shell_check(agent.healthconfig, ready)
            &&& is_shell_check(proxy.healthconfig, "test -e /openshell-tls/.ready"@)
            &&& nested.name == "openshell-sandbox-"@ + sandbox.name
            &&& agent.name == "openshell-sandbox-"@ + sandbox.name
            &&& proxy.name == "openshell-proxy-"@ + sandbox.name
            &&& nested.hostname == "sandbox-"@ + sandbox.name
            &&& agent.hostname == "sandbox-"@ + sandbox.name
            &&& proxy.hostname == "proxy-"@ + sandbox.name
            &&& nested.hostadd.len() == 2
            &&& nested.hostadd[0] == "host.containers.internal:host-gateway"@
            &&& nested.hostadd[1] == "host.openshell.internal:host-gateway"@
            &&& agent.hostadd == nested.hostadd
            &&& only(proxy.hostadd, "host.containers.internal:host-gateway"@)
        }),
{
}

/// The capabilities of proxy and agent, and those of a nested container, whatever
/// the sandbox asks for. Only a nested container has paths unmasked and SELinux
/// confinement disabled.
pub proof fn law_capabilities(
    sandbox: SandboxView,
    config: ConfigView,
    internal_network: Seq<char>,
    proxy_ip: Seq<char>,
    tls_volume: Seq<char>,
    dns_servers: Seq<Seq<char>>,
    selinux_enabled: bool,
)
    ensures
        ({
            let nested = nested_container(sandbox, config, selinux_enabled);
            let proxy = proxy_container(sandbox, config, internal_network, dns_servers);
            let agent = agent_container(
                sandbox,
                config,
                internal_network,
                proxy_ip,
                tls_volume,
                selinux_enabled,
            );
            &&& nested.cap_add == seq!["SYS_ADMIN"@, "NET_ADMIN"@]
            &&& proxy.cap_add == seq!["SYS_ADMIN"@, "NET_ADMIN"@]
            &&& agent.cap_add == seq!["SYS_ADMIN"@, "NET_ADMIN"@, "SYSLOG"@]
            &&& nested.cap_drop == seq!["NET_BIND_SERVICE"@, "NET_RAW"@]
            &&& agent.cap_drop == seq![
                "DAC_OVERRIDE"@,
                "FSETID"@,
                "KILL"@,
                "NET_BIND_SERVICE"@,
                "NET_RAW"@,
                "SETFCAP"@,
                "SETPCAP"@,
                "SYS_CHROOT"@,
            ]
            &&& proxy.cap_drop == agent.cap_drop
            &&& proxy.no_new_privileges && agent.no_new_privileges && !nested.no_new_privileges
            &&& nested.unmask == seq!["/proc/*"@, "/sys/fs/cgroup"@]
            &&& only(nested.selinux_opts, "disable"@)
            &&& proxy.unmask.len() == 0 && agent.unmask.len() == 0
            &&& proxy.selinux_opts.len() == 0 && agent.selinux_opts.len() == 0
        }),
{
}

/// No container asks for a certain address; a published port is a TCP port, the SSH
/// port of the configuration.
pub proof fn law_attachments(
    sandbox: SandboxView,
    config: ConfigView,
    internal_network: Seq<char>,
    proxy_ip: Seq<char>,
    tls_volume: Seq<char>,
    dns_servers: Seq<Seq<char>>,
    selinux_enabled: bool,
    network: Seq<char>,
)
    ensures
        ({
            let nested = nested_container(sandbox, config, selinux_enabled);
            let proxy = proxy_container(sandbox, config, internal_network, dns_servers);
            let agent = agent_container(
                sandbox,
                config,
                internal_network,
                proxy_ip,
                tls_volume,
                selinux_enabled,
            );
            &&& nested.networks.contains_key(network) <==> network == config.network_name
            &&& proxy.networks.contains_key(network) <==> network == internal_network
            &&& agent.networks.contains_key(network) <==> network == internal_network
            &&& nested.networks[config.network_name].static_ip is None
            &&& proxy.networks[internal_network].static_ip is None
            &&& agent.networks[internal_network].static_ip is None
            &&& nested.portmappings.len() == 1 && agent.portmappings.len() == 1
            &&& proxy.portmappings.len() == 0
            &&& nested.portmappings[0].host_port == 0 && agent.portmappings[0].host_port == 0
            &&& nested.portmappings[0].container_port == config.ssh_port
            &&& agent.portmappings[0].container_port == config.ssh_port
            &&& nested.portmappings[0].protocol == "tcp"@
            &&& agent.portmappings[0].protocol == "tcp"@
        }),
{
}

/// The only secret of each container is the handshake secret, under the name of the
/// sandbox's Podman secret.
pub proof fn law_secrets(
    sandbox: SandboxView,
    config: ConfigView,
    internal_network: Seq<char>,
    proxy_ip: Seq<char>,
    tls_volume: Seq<char>,
    dns_servers: Seq<Seq<char>>,
    selinux_enabled: bool,
    key: Seq<char>,
)
    ensures
        ({
            let nested = nested_container(sandbox, config, selinux_enabled).secret_env;
            let proxy = proxy_container(sandbox, config, internal_network, dns_servers).secret_env;
            let agent = agent_container(
                sandbox,
                config,
                internal_network,
                proxy_ip,
                tls_volume,
                selinux_enabled,
            ).secret_env;
            let name = "OPENSHELL_SSH_HANDSHAKE_SECRET"@;
            let secret = "openshell-handshake-"@ + sandbox.id;
            &&& maps(nested, name, secret) && maps(proxy, name, secret) && maps(agent, name, secret)
            &&& nested.contains_key(key) || proxy.contains_key(key) || agent.contains_key(key)
                ==> key == name
        }),
{
}

/// What stands under a key, if anything.
pub open spec fn lookup(names: Names, key: Seq<char>) -> Option<Seq<char>> {
    if names.contains_key(key) {
        Some(names[key])
    } else {
        None
    }
}

/// What the user asks a variable to be: by the template; else by the spec; else, for
/// the log level, by the spec's log level.
pub open spec fn requested(sandbox: SandboxView, key: Seq<char>) -> Option<Seq<char>> {
    let template = given_template(sandbox);
    if template is Some && template->Some_0.environment.contains_key(key) {
        Some(template->Some_0.environment[key])
    } else if sandbox.spec is Some && sandbox.spec->Some_0.environment.contains_key(key) {
        Some(sandbox.spec->Some_0.environment[key])
    } else if sandbox.spec is Some && key == "OPENSHELL_LOG_LEVEL"@
        && sandbox.spec->Some_0.log_level != Seq::<char>::empty() {
        Some(sandbox.spec->Some_0.log_level)
    } else {
        None
    }
}

/// What the driver says a variable of the workload is, whoever asks for what.
pub open spec fn dictated(
    sandbox: SandboxView,
    config: ConfigView,
    image: Seq<char>,
    key: Seq<char>,
) -> Option<Seq<char>> {
    if key == "OPENSHELL_SANDBOX"@ {
        Some(sandbox.name)
    } else if key == "OPENSHELL_SANDBOX_ID"@ {
        Some(sandbox.id)
    } else if key == "OPENSHELL_ENDPOINT"@ {
        Some(config.grpc_endpoint)
    } else if key == "OPENSHELL_SSH_SOCKET_PATH"@ {
        Some(config.sandbox_ssh_socket_path)
    } else if key == "OPENSHELL_SSH_HANDSHAKE_SKEW_SECS"@ {
        Some(decimal_text(config.ssh_handshake_skew_secs))
    } else if key == "OPENSHELL_CONTAINER_IMAGE"@ {
        Some(image)
    } else if key == "OPENSHELL_SANDBOX_COMMAND"@ {
        Some("sleep infinity"@)
    } else if has_tls_material(config) && key == "OPENSHELL_TLS_CA"@ {
        Some("/etc/openshell/tls/client/ca.crt"@)
    } else if has_tls_material(config) && key == "OPENSHELL_TLS_CERT"@ {
        Some("/etc/openshell/tls/client/tls.crt"@)
    } else if has_tls_material(config) && key == "OPENSHELL_TLS_KEY"@ {
        Some("/etc/openshell/tls/client/tls.key"@)
    } else {
        None
    }
}

/// What a variable of the agent must be for its traffic to go through the proxy.
pub open spec fn routed(proxy_ip: Seq<char>, key: Seq<char>) -> Option<Seq<char>> {
    if key == "OPENSHELL_PROXY_MODE"@ {
        Some("sidecar"@)
    } else if key == "OPENSHELL_ENDPOINT"@ {
        Some("http://"@ + proxy_ip + ":8081"@)
    } else if key == "HTTP_PROXY"@ || key == "HTTPS_PROXY"@ {
        Some("http://"@ + proxy_ip + ":3128"@)
    } else if key == "NO_PROXY"@ || key == "no_proxy"@ {
        Some("127.0.0.1,localhost,::1,"@ + proxy_ip)
    } else if key == "SSL_CERT_FILE"@ || key == "CURL_CA_BUNDLE"@ || key == "GIT_SSL_CAINFO"@
        || key == "REQUESTS_CA_BUNDLE"@ {
        Some("/openshell-tls/ca-bundle.pem"@)
    } else if key == "NODE_EXTRA_CA_CERTS"@ {
        Some("/openshell-tls/openshell-ca.pem"@)
    } else if key == "GIT_SSH_COMMAND"@ {
        Some("echo 'SSH disabled — use HTTPS' && exit 1"@)
    } else {
        None
    }
}

/// The first of two that is there.
pub open spec fn or_else(a: Option<Seq<char>>, b: Option<Seq<char>>) -> Option<Seq<char>> {
    if a is Some {
        a
    } else {
        b
    }
}

proof fn lemma_requested(sandbox: SandboxView, key: Seq<char>)
    ensures
        lookup(user_env(sandbox), key) == requested(sandbox, key),
{
    if sandbox.spec is Some {
        let level = sandbox.spec->Some_0.log_level;
        assert(level.len() == 0 ==> level =~= Seq::<char>::empty());
    }
}

proof fn lemma_dictated(
    sandbox: SandboxView,
    config: ConfigView,
    image: Seq<char>,
    key: Seq<char>,
)
    ensures
        lookup(required_env(sandbox, config, image), key) == dictated(sandbox, config, image, key),
{
    lemma_required_names(sandbox, config, image);
    assert(required_env(sandbox, config, image).contains_key(key) <==> is_required_name(
        config,
        key,
    ));
}

proof fn lemma_routed(config: ConfigView, proxy_ip: Seq<char>, key: Seq<char>)
    ensures
        lookup(sidecar_env(proxy_ip), key) == routed(proxy_ip, key),
{
    lemma_sidecar_names(config, proxy_ip);
    assert(sidecar_env(proxy_ip).contains_key(key) <==> is_sidecar_name(key));
}

/// Every variable of a workload, for whatever image: what the driver says, else what
/// the user asks for, else nothing.
pub proof fn law_workload_variable(
    sandbox: SandboxView,
    config: ConfigView,
    image: Seq<char>,
    key: Seq<char>,
)
    ensures
        lookup(workload_env(sandbox, config, image), key) == or_else(
            dictated(sandbox, config, image, key),
            requested(sandbox, key),
        ),
{
    lemma_requested(sandbox, key);
    lemma_dictated(sandbox, config, image, key);
}

/// Every variable of a nested container: what the driver says; the mode; what the
/// user asks for; and for configured credentials, failing that, where they are.
pub proof fn law_nested_variable(
    sandbox: SandboxView,
    config: ConfigView,
    selinux_enabled: bool,
    key: Seq<char>,
)
    ensures
        ({
            let nested = nested_container(sandbox, config, selinux_enabled);
            let mode = if key == "OPENSHELL_MODE"@ {
                Some("nested"@)
            } else {
                None
            };
            let credentials = if key == "GOOGLE_APPLICATION_CREDENTIALS"@
                && config.adc_host_path is Some {
                Some("/run/gcloud/adc.json"@)
            } else {
                None
            };
            lookup(nested.env, key) == or_else(
                dictated(sandbox, config, nested.image, key),
                or_else(mode, or_else(requested(sandbox, key), credentials)),
            )
        }),
{
    let image = image_text(sandbox, config);
    lemma_requested(sandbox, key);
    lemma_dictated(sandbox, config, image, key);
    lemma_required_names(sandbox, config, image);
    assert(nested_env(sandbox, config) == nested_container(sandbox, config, selinux_enabled).env);
}

/// Every variable of the agent: what routes its traffic through the proxy; what the
/// driver says; what the user asks for.
pub proof fn law_agent_variable(
    sandbox: SandboxView,
    config: ConfigView,
    internal_network: Seq<char>,
    proxy_ip: Seq<char>,
    tls_volume: Seq<char>,
    selinux_enabled: bool,
    key: Seq<char>,
)
    ensures
        ({
            let agent = agent_container(
                sandbox,
                config,
                internal_network,
                proxy_ip,
                tls_volume,
                selinux_enabled,
            );
            lookup(agent.env, key) == or_else(
                routed(proxy_ip, key),
                or_else(dictated(sandbox, config, agent.image, key), requested(sandbox, key)),
            )
        }),
{
    let image = image_text(sandbox, config);
    lemma_requested(sandbox, key);
    lemma_dictated(sandbox, config, image, key);
    lemma_routed(config, proxy_ip, key);
    assert(agent_env(sandbox, config, proxy_ip) == agent_container(
        sandbox,
        config,
        internal_network,
        proxy_ip,
        tls_volume,
        selinux_enabled,
    ).env);
}

/// Every variable of the proxy: its mode, the gateway, the sandbox, the clock skew,
/// and the log level that the user asks for, if any.
pub proof fn law_proxy_variable(
    sandbox: SandboxView,
    config: ConfigView,
    internal_network: Seq<char>,
    dns_servers: Seq<Seq<char>>,
    key: Seq<char>,
)
    ensures
        lookup(proxy_container(sandbox, config, internal_network, dns_servers).env, key) == (if key
            == "OPENSHELL_MODE"@ {
            Some("proxy"@)
        } else if key == "OPENSHELL_ENDPOINT"@ {
            Some(config.grpc_endpoint)
        } else if key == "OPENSHELL_SANDBOX_ID"@ {
            Some(sandbox.id)
        } else if key == "OPENSHELL_SANDBOX"@ {
            Some(sandbox.name)
        } else if key == "OPENSHELL_SSH_HANDSHAKE_SKEW_SECS"@ {
            Some(decimal_text(config.ssh_handshake_skew_secs))
        } else if key == "OPENSHELL_LOG_LEVEL"@ && sandbox.spec is Some
            && sandbox.spec->Some_0.log_level != Seq::<char>::empty() {
            Some(sandbox.spec->Some_0.log_level)
        } else {
            None
        }),
{
    if sandbox.spec is Some {
        let level = sandbox.spec->Some_0.log_level;
        assert(level.len() == 0 ==> level =~= Seq::<char>::empty());
    }
    assert(proxy_env(sandbox, config) == proxy_container(
        sandbox,
        config,
        internal_network,
        dns_servers,
    ).env);
    reveal_strlit("OPENSHELL_MODE");
    reveal_strlit("OPENSHELL_ENDPOINT");
    reveal_strlit("OPENSHELL_SANDBOX_ID");
    reveal_strlit("OPENSHELL_SANDBOX");
    reveal_strlit("OPENSHELL_SSH_HANDSHAKE_SKEW_SECS");
    reveal_strlit("OPENSHELL_LOG_LEVEL");
    assert("OPENSHELL_MODE"@.len() == 14);
    assert("OPENSHELL_ENDPOINT"@.len() == 18);
    assert("OPENSHELL_SANDBOX_ID"@.len() == 20);
    assert("OPENSHELL_SANDBOX"@.len() == 17);
    assert("OPENSHELL_SSH_HANDSHAKE_SKEW_SECS"@.len() == 33);
    assert("OPENSHELL_LOG_LEVEL"@.len() == 19);
}

/// Every label of a container: what the driver finds it by; its role, if it has
/// one; else what the template asks for.
pub open spec fn labeled(
    sandbox: SandboxView,
    role: Option<Seq<char>>,
    key: Seq<char>,
) -> Option<Seq<char>> {
    if key == "openshell.sandbox-id"@ {
        Some(sandbox.id)
    } else if key == "openshell.sandbox-name"@ {
        Some(sandbox.name)
    } else if key == "openshell.sandbox-namespace"@ {
        Some(sandbox.namespace)
    } else if key == "openshell.managed"@ {
        Some("true"@)
    } else if key == "openshell.role"@ && role is Some {
        role
    } else if given_template(sandbox) is Some {
        lookup(given_template(sandbox)->Some_0.labels, key)
    } else {
        None
    }
}

/// Proxy and agent are labeled with their roles, a nested container with none.
pub proof fn law_label(
    sandbox: SandboxView,
    config: ConfigView,
    internal_network: Seq<char>,
    proxy_ip: Seq<char>,
    tls_volume: Seq<char>,
    dns_servers: Seq<Seq<char>>,
    selinux_enabled: bool,
    key: Seq<char>,
)
    ensures
        ({
            let nested = nested_container(sandbox, config, selinux_enabled).labels;
            let proxy = proxy_container(sandbox, config, internal_network, dns_servers).labels;
            let agent = agent_container(
                sandbox,
                config,
                internal_network,
                proxy_ip,
                tls_volume,
                selinux_enabled,
            ).labels;
            &&& lookup(container_labels(sandbox), key) == labeled(sandbox, None, key)
            &&& lookup(nested, key) == labeled(sandbox, None, key)
            &&& lookup(proxy, key) == labeled(sandbox, Some("proxy"@), key)
            &&& lookup(agent, key) == labeled(sandbox, Some("agent"@), key)
        }),
{
    lemma_label_names(sandbox);
    assert(managed_labels(sandbox).contains_key(key) <==> is_managed_name(key));
}

} // verus!
