//! Container spec construction for the Podman driver.
use crate::container_spec::{
    ContainerSpec, ContainerSpecView, CpuLimits, CpuLimitsView, HealthConfig, HealthConfigView,
    ImageVolume, ImageVolumeView, LinuxDevice, LinuxDeviceView, MemoryLimits, MemoryLimitsView, Mount,
    MountView, NamedVolume, NamedVolumeView, NetNS, NetNSView, NetworkAttachment,
    NetworkAttachmentView, PortMapping, PortMappingView, ResourceLimits, ResourceLimitsView,
};
use crate::cores::PERIOD_MICROS;
use crate::json::{document, ToJson};
use crate::quantity::{cpu_micros, memory_bytes, parse_cpu_to_microseconds, parse_memory_to_bytes};
use crate::sandbox::{
    ConfigView, DriverSandbox, Names, PodmanComputeConfig, SandboxView, SANDBOX_MODE_NESTED,
};
use crate::string_map::StringMap;
use crate::text::{decimal, decimal_text};
use crate::views::{copies, seq_view, strings};
use vstd::prelude::*;

verus! {

/// Label key for the sandbox ID.
pub const LABEL_SANDBOX_ID: &'static str = "openshell.sandbox-id";

/// Label key for the sandbox name.
pub const LABEL_SANDBOX_NAME: &'static str = "openshell.sandbox-name";

/// Label key for the sandbox namespace.
pub const LABEL_SANDBOX_NAMESPACE: &'static str = "openshell.sandbox-namespace";

/// Label applied to all managed containers.
pub const LABEL_MANAGED: &'static str = "openshell.managed";

/// Label filter string for list and event queries.
pub const LABEL_MANAGED_FILTER: &'static str = "openshell.managed=true";

/// Label key for the container role in the sidecar architecture.
pub const LABEL_ROLE: &'static str = "openshell.role";

/// Role value for the proxy sidecar container.
pub const ROLE_PROXY: &'static str = "proxy";

/// Role value for the agent container.
pub const ROLE_AGENT: &'static str = "agent";

/// Container name prefix, against collisions with containers of the user.
pub const CONTAINER_PREFIX: &'static str = "openshell-sandbox-";

/// Proxy sidecar container name prefix.
pub const PROXY_PREFIX: &'static str = "openshell-proxy-";

/// Workspace volume name prefix and suffix.
pub const VOLUME_PREFIX: &'static str = "openshell-sandbox-";

pub const VOLUME_SUFFIX: &'static str = "-workspace";

/// TLS volume name prefix.
pub const TLS_VOLUME_PREFIX: &'static str = "openshell-tls-";

/// Internal network name prefix.
pub const NETWORK_PREFIX: &'static str = "openshell-sbx-";

/// Podman secret name prefix.
pub const SECRET_PREFIX: &'static str = "openshell-handshake-";

/// Container-side mount paths for client TLS materials.
pub const TLS_CA_MOUNT_PATH: &'static str = "/etc/openshell/tls/client/ca.crt";

pub const TLS_CERT_MOUNT_PATH: &'static str = "/etc/openshell/tls/client/tls.crt";

pub const TLS_KEY_MOUNT_PATH: &'static str = "/etc/openshell/tls/client/tls.key";

/// The characters of one string, then those of another.
fn joined(a: &str, b: &str) -> (text: String)
    ensures
        text@ == a@ + b@,
{
    let mut text = a.to_owned();
    text.append(b);
    text
}

pub open spec fn container_name_text(sandbox_name: Seq<char>) -> Seq<char> {
    CONTAINER_PREFIX@ + sandbox_name
}

pub open spec fn proxy_container_name_text(sandbox_name: Seq<char>) -> Seq<char> {
    PROXY_PREFIX@ + sandbox_name
}

pub open spec fn volume_name_text(sandbox_id: Seq<char>) -> Seq<char> {
    VOLUME_PREFIX@ + sandbox_id + VOLUME_SUFFIX@
}

pub open spec fn tls_volume_name_text(sandbox_id: Seq<char>) -> Seq<char> {
    TLS_VOLUME_PREFIX@ + sandbox_id
}

pub open spec fn internal_network_name_text(sandbox_id: Seq<char>) -> Seq<char> {
    NETWORK_PREFIX@ + sandbox_id
}

pub open spec fn secret_name_text(sandbox_id: Seq<char>) -> Seq<char> {
    SECRET_PREFIX@ + sandbox_id
}

/// Build a Podman container name from the sandbox name (used for the agent container).
#[must_use]
pub fn container_name(sandbox_name: &str) -> (name: String)
    ensures
        name@ == container_name_text(sandbox_name@),
{
    joined(CONTAINER_PREFIX, sandbox_name)
}

/// Build the proxy sidecar container name from the sandbox name.
#[must_use]
pub fn proxy_container_name(sandbox_name: &str) -> (name: String)
    ensures
        name@ == proxy_container_name_text(sandbox_name@),
{
    joined(PROXY_PREFIX, sandbox_name)
}

/// Build the workspace volume name from the sandbox ID.
#[must_use]
pub fn volume_name(sandbox_id: &str) -> (name: String)
    ensures
        name@ == volume_name_text(sandbox_id@),
{
    joined(joined(VOLUME_PREFIX, sandbox_id).as_str(), VOLUME_SUFFIX)
}

/// Build the TLS volume name for mTLS material shared between proxy and agent.
#[must_use]
pub fn tls_volume_name(sandbox_id: &str) -> (name: String)
    ensures
        name@ == tls_volume_name_text(sandbox_id@),
{
    joined(TLS_VOLUME_PREFIX, sandbox_id)
}

/// Build the internal network name for sandbox isolation.
#[must_use]
pub fn internal_network_name(sandbox_id: &str) -> (name: String)
    ensures
        name@ == internal_network_name_text(sandbox_id@),
{
    joined(NETWORK_PREFIX, sandbox_id)
}

/// Build the Podman secret name for a sandbox's SSH handshake secret.
#[must_use]
pub fn secret_name(sandbox_id: &str) -> (name: String)
    ensures
        name@ == secret_name_text(sandbox_id@),
{
    joined(SECRET_PREFIX, sandbox_id)
}

/// The first 12 characters, or all where there are fewer.
pub open spec fn short_id_text(id: Seq<char>) -> Seq<char> {
    if id.len() <= 12 {
        id
    } else {
        id.take(12)
    }
}

/// Truncate a container ID to 12 characters (standard short form).
#[must_use]
pub fn short_id(id: &str) -> (short: String)
    ensures
        short@ == short_id_text(id@),
{
    if id.unicode_len() <= 12 {
        id.to_owned()
    } else {
        id.substring_char(0, 12).to_owned()
    }
}

/// The image of the template, if it names one; else the driver's default image.
pub open spec fn image_text(sandbox: SandboxView, config: ConfigView) -> Seq<char> {
    match sandbox.template() {
        Some(template) => if template.image.len() > 0 {
            template.image
        } else {
            config.default_image
        },
        None => config.default_image,
    }
}

/// Resolve the OCI image reference for a sandbox, using the template image
/// if provided, otherwise the driver's default image.
#[must_use]
pub fn resolve_image<'a>(sandbox: &'a DriverSandbox, config: &'a PodmanComputeConfig) -> (image:
    &'a str)
    ensures
        image@ == image_text(sandbox@, config@),
{
    match sandbox.template() {
        Some(template) => if template.image.as_str().is_empty() {
            config.default_image.as_str()
        } else {
            template.image.as_str()
        },
        None => config.default_image.as_str(),
    }
}

/// The environment that the user asked for: the log level, then the environment of
/// the spec, then that of the template, each before the one it yields to.
pub open spec fn user_env(sandbox: SandboxView) -> Names {
    match sandbox.spec {
        Some(spec) => {
            let level = if spec.log_level.len() > 0 {
                map!["OPENSHELL_LOG_LEVEL"@ => spec.log_level]
            } else {
                Map::empty()
            };
            let env = level.union_prefer_right(spec.environment);
            match spec.template {
                Some(template) => env.union_prefer_right(template.environment),
                None => env,
            }
        },
        None => Map::empty(),
    }
}

/// The variables that the driver sets, whatever the user asked for.
pub open spec fn required_env(sandbox: SandboxView, config: ConfigView, image: Seq<char>) -> Names {
    let env = map![
        "OPENSHELL_SANDBOX"@ => sandbox.name,
        "OPENSHELL_SANDBOX_ID"@ => sandbox.id,
        "OPENSHELL_ENDPOINT"@ => config.grpc_endpoint,
        "OPENSHELL_SSH_SOCKET_PATH"@ => config.sandbox_ssh_socket_path,
        "OPENSHELL_SSH_HANDSHAKE_SKEW_SECS"@ => decimal_text(config.ssh_handshake_skew_secs),
        "OPENSHELL_CONTAINER_IMAGE"@ => image,
        "OPENSHELL_SANDBOX_COMMAND"@ => "sleep infinity"@,
    ];
    if config.tls_enabled() {
        env.insert("OPENSHELL_TLS_CA"@, TLS_CA_MOUNT_PATH@).insert(
            "OPENSHELL_TLS_CERT"@,
            TLS_CERT_MOUNT_PATH@,
        ).insert("OPENSHELL_TLS_KEY"@, TLS_KEY_MOUNT_PATH@)
    } else {
        env
    }
}

/// The environment of a container that runs the user's workload.
pub open spec fn workload_env(sandbox: SandboxView, config: ConfigView, image: Seq<char>) -> Names {
    user_env(sandbox).union_prefer_right(required_env(sandbox, config, image))
}

/// Set a variable or a label.
fn set(names: &mut StringMap<String>, key: &str, value: &str)
    ensures
        final(names)@ == old(names)@.insert(key@, value@),
{
    names.insert(key.to_owned(), value.to_owned());
}

/// Merge environment variables from user spec/template with required driver vars.
///
/// User-supplied vars are inserted first so that the required driver
/// vars always win -- preventing spec/template overrides of security-
/// critical values like `OPENSHELL_ENDPOINT` or `OPENSHELL_SANDBOX_ID`.
pub fn build_env(sandbox: &DriverSandbox, config: &PodmanComputeConfig, image: &str) -> (env:
    StringMap<String>)
    ensures
        env@ == workload_env(sandbox@, config@, image@),
{
    let mut env: StringMap<String> = StringMap::new();
    // User-supplied environment (lowest priority).
    if let Some(spec) = &sandbox.spec {
        if !spec.log_level.as_str().is_empty() {
            set(&mut env, "OPENSHELL_LOG_LEVEL", spec.log_level.as_str());
        }
        env.insert_all(&spec.environment);
        if let Some(template) = &spec.template {
            env.insert_all(&template.environment);
        }
    }
    assert(env@ =~= user_env(sandbox@));
    // Required driver vars (highest priority -- always overwrite). The SSH
    // handshake secret is not among them: it comes from a Podman secret, which
    // `podman inspect` does not show.
    set(&mut env, "OPENSHELL_SANDBOX", sandbox.name.as_str());
    set(&mut env, "OPENSHELL_SANDBOX_ID", sandbox.id.as_str());
    set(&mut env, "OPENSHELL_ENDPOINT", config.grpc_endpoint.as_str());
    set(&mut env, "OPENSHELL_SSH_SOCKET_PATH", config.sandbox_ssh_socket_path.as_str());
    set(
        &mut env,
        "OPENSHELL_SSH_HANDSHAKE_SKEW_SECS",
        decimal(config.ssh_handshake_skew_secs).as_str(),
    );
    set(&mut env, "OPENSHELL_CONTAINER_IMAGE", image);
    set(&mut env, "OPENSHELL_SANDBOX_COMMAND", "sleep infinity");
    // TLS client cert paths, where the cert files are mounted.
    if config.tls_enabled() {
        set(&mut env, "OPENSHELL_TLS_CA", TLS_CA_MOUNT_PATH);
        set(&mut env, "OPENSHELL_TLS_CERT", TLS_CERT_MOUNT_PATH);
        set(&mut env, "OPENSHELL_TLS_KEY", TLS_KEY_MOUNT_PATH);
    }
    assert(env@ =~= workload_env(sandbox@, config@, image@));
    env
}

/// The labels of the template, if there is one.
pub open spec fn user_labels(sandbox: SandboxView) -> Names {
    match sandbox.template() {
        Some(template) => template.labels,
        None => Map::empty(),
    }
}

/// The labels that the driver finds its containers by.
pub open spec fn managed_labels(sandbox: SandboxView) -> Names {
    map![
        LABEL_SANDBOX_ID@ => sandbox.id,
        LABEL_SANDBOX_NAME@ => sandbox.name,
        LABEL_SANDBOX_NAMESPACE@ => sandbox.namespace,
        LABEL_MANAGED@ => "true"@,
    ]
}

/// The labels of a container.
pub open spec fn container_labels(sandbox: SandboxView) -> Names {
    user_labels(sandbox).union_prefer_right(managed_labels(sandbox))
}

/// Merge labels from the sandbox template with required managed labels.
///
/// User-supplied labels are inserted first so that the managed labels
/// always win -- preventing template overrides of internal tracking labels.
pub fn build_labels(sandbox: &DriverSandbox) -> (labels: StringMap<String>)
    ensures
        labels@ == container_labels(sandbox@),
{
    let mut labels: StringMap<String> = StringMap::new();
    if let Some(template) = sandbox.template() {
        labels.insert_all(&template.labels);
    }
    assert(labels@ =~= user_labels(sandbox@));
    // Managed labels (highest priority -- always overwrite).
    set(&mut labels, LABEL_SANDBOX_ID, sandbox.id.as_str());
    set(&mut labels, LABEL_SANDBOX_NAME, sandbox.name.as_str());
    set(&mut labels, LABEL_SANDBOX_NAMESPACE, sandbox.namespace.as_str());
    set(&mut labels, LABEL_MANAGED, "true");
    assert(labels@ =~= container_labels(sandbox@));
    labels
}

/// Default limits: 2 CPU cores (200000 us per period of 100000 us), 4 GiB memory.
pub const DEFAULT_CPU_QUOTA: u64 = 200_000;

pub const DEFAULT_CPU_PERIOD: u64 = PERIOD_MICROS;

pub const DEFAULT_MEMORY_LIMIT: u64 = 4_294_967_296;

/// The CPU quota of the template; the default where it gives none, or none that is
/// valid.
pub open spec fn cpu_quota(sandbox: SandboxView) -> u64 {
    match sandbox.resources() {
        Some(resources) => match cpu_micros(resources.cpu_limit) {
            Some(micros) => micros,
            None => DEFAULT_CPU_QUOTA,
        },
        None => DEFAULT_CPU_QUOTA,
    }
}

/// The memory limit of the template; the default where it gives none, or none that
/// is valid.
pub open spec fn memory_limit(sandbox: SandboxView) -> u64 {
    match sandbox.resources() {
        Some(resources) => match memory_bytes(resources.memory_limit) {
            Some(bytes) => bytes,
            None => DEFAULT_MEMORY_LIMIT,
        },
        None => DEFAULT_MEMORY_LIMIT,
    }
}

pub open spec fn limits(quota: u64, memory: u64) -> ResourceLimitsView {
    ResourceLimitsView {
        cpu: CpuLimitsView { quota: quota as nat, period: DEFAULT_CPU_PERIOD as nat },
        memory: MemoryLimitsView { limit: memory as nat },
    }
}

/// Parse resource limits from the sandbox template, falling back to defaults.
pub fn build_resource_limits(sandbox: &DriverSandbox) -> (resource_limits: ResourceLimits)
    ensures
        resource_limits@ == limits(cpu_quota(sandbox@), memory_limit(sandbox@)),
{
    let mut quota: u64 = DEFAULT_CPU_QUOTA;
    let mut limit: u64 = DEFAULT_MEMORY_LIMIT;
    if let Some(resources) = sandbox.resources() {
        if let Some(micros) = parse_cpu_to_microseconds(resources.cpu_limit.as_str()) {
            quota = micros;
        }
        if let Some(bytes) = parse_memory_to_bytes(resources.memory_limit.as_str()) {
            limit = bytes;
        }
    }
    ResourceLimits {
        cpu: CpuLimits { quota, period: DEFAULT_CPU_PERIOD },
        memory: MemoryLimits { limit },
    }
}

/// The CDI name of all GPUs of the host.
pub const CDI_GPU_DEVICE_ALL: &'static str = "nvidia.com/gpu=all";

/// All GPUs where one is requested, else no devices.
pub open spec fn gpu_devices(sandbox: SandboxView) -> Option<Seq<LinuxDeviceView>> {
    if sandbox.wants_gpu() {
        Some(seq![LinuxDeviceView { path: CDI_GPU_DEVICE_ALL@ }])
    } else {
        None
    }
}

/// A device, from its path.
fn device(path: &str) -> (device: LinuxDevice)
    ensures
        device@ == (LinuxDeviceView { path: path@ }),
{
    LinuxDevice { path: path.to_owned() }
}

/// Build CDI GPU device list if GPU is requested.
pub fn build_devices(sandbox: &DriverSandbox) -> (devices: Option<Vec<LinuxDevice>>)
    ensures
        gpu_devices(sandbox@) == match devices {
            Some(items) => Some(seq_view(items@)),
            None => None,
        },
{
    let gpu: bool = match &sandbox.spec {
        Some(spec) => spec.gpu,
        None => false,
    };
    if gpu {
        let items = vec![device(CDI_GPU_DEVICE_ALL)];
        assert(seq_view(items@) =~= seq![LinuxDeviceView { path: CDI_GPU_DEVICE_ALL@ }]);
        Some(items)
    } else {
        None
    }
}

/// Determine whether the sandbox should be created in nested (passthrough) mode.
///
/// Nested mode runs the supervisor for SSH/exec but skips all security
/// enforcement (Landlock, seccomp, netns, privilege dropping). The container
/// runs with elevated capabilities needed for nested containerization.
pub fn is_nested_mode(sandbox: &DriverSandbox) -> (nested: bool)
    ensures
        nested == sandbox@.is_nested(),
{
    match sandbox.template() {
        Some(template) => template.mode == SANDBOX_MODE_NESTED,
        None => false,
    }
}

/// The options of a read-only bind mount; on hosts with SELinux the files are
/// relabeled, so that the container may read them.
pub open spec fn bind_options(selinux_enabled: bool) -> Seq<Seq<char>> {
    if selinux_enabled {
        seq!["ro"@, "rbind"@, "z"@]
    } else {
        seq!["ro"@, "rbind"@]
    }
}

/// A bind mount.
pub open spec fn bind_mount(
    source: Seq<char>,
    destination: Seq<char>,
    options: Seq<Seq<char>>,
) -> MountView {
    MountView { kind: "bind"@, source, destination, options }
}

/// A private tmpfs in which the supervisor can name network namespaces.
pub open spec fn netns_mount() -> MountView {
    MountView {
        kind: "tmpfs"@,
        source: "tmpfs"@,
        destination: "/run/netns"@,
        options: seq!["rw"@, "nosuid"@, "nodev"@],
    }
}

/// The client TLS material, where mTLS is enabled.
pub open spec fn tls_mounts(config: ConfigView, selinux_enabled: bool) -> Seq<MountView> {
    if config.tls_enabled() {
        let options = bind_options(selinux_enabled);
        seq![
            bind_mount(config.guest_tls_ca->Some_0, TLS_CA_MOUNT_PATH@, options),
            bind_mount(config.guest_tls_cert->Some_0, TLS_CERT_MOUNT_PATH@, options),
            bind_mount(config.guest_tls_key->Some_0, TLS_KEY_MOUNT_PATH@, options),
        ]
    } else {
        Seq::empty()
    }
}

/// Where application default credentials are in the container.
pub const ADC_MOUNT_PATH: &'static str = "/run/gcloud/adc.json";

/// The application default credentials, where they are configured.
pub open spec fn adc_mounts(config: ConfigView) -> Seq<MountView> {
    match config.adc_host_path {
        Some(path) => seq![bind_mount(path, ADC_MOUNT_PATH@, bind_options(false))],
        None => Seq::empty(),
    }
}

fn read_only_bind(source: &str, destination: &str, selinux_enabled: bool) -> (mount: Mount)
    ensures
        mount@ == bind_mount(source@, destination@, bind_options(selinux_enabled)),
{
    let options = if selinux_enabled {
        strings(&["ro", "rbind", "z"])
    } else {
        strings(&["ro", "rbind"])
    };
    assert(seq_view(options@) =~= bind_options(selinux_enabled));
    Mount {
        kind: "bind".to_owned(),
        source: source.to_owned(),
        destination: destination.to_owned(),
        options,
    }
}

fn netns_tmpfs() -> (mount: Mount)
    ensures
        mount@ == netns_mount(),
{
    let options = strings(&["rw", "nosuid", "nodev"]);
    assert(seq_view(options@) =~= seq!["rw"@, "nosuid"@, "nodev"@]);
    Mount {
        kind: "tmpfs".to_owned(),
        source: "tmpfs".to_owned(),
        destination: "/run/netns".to_owned(),
        options,
    }
}

/// Bind-mount client TLS materials into the container when mTLS is enabled.
fn push_tls_mounts(mounts: &mut Vec<Mount>, config: &PodmanComputeConfig, selinux_enabled: bool)
    ensures
        seq_view(final(mounts)@) == seq_view(old(mounts)@) + tls_mounts(config@, selinux_enabled),
{
    let ghost before = mounts@;
    if let (Some(ca), Some(cert), Some(key)) = (
        &config.guest_tls_ca,
        &config.guest_tls_cert,
        &config.guest_tls_key,
    ) {
        mounts.push(read_only_bind(ca.as_str(), TLS_CA_MOUNT_PATH, selinux_enabled));
        mounts.push(read_only_bind(cert.as_str(), TLS_CERT_MOUNT_PATH, selinux_enabled));
        mounts.push(read_only_bind(key.as_str(), TLS_KEY_MOUNT_PATH, selinux_enabled));
    }
    assert(seq_view(mounts@) =~= seq_view(before) + tls_mounts(config@, selinux_enabled));
}

/// A named volume.
pub open spec fn volume(name: Seq<char>, dest: Seq<char>, option: Seq<char>) -> NamedVolumeView {
    NamedVolumeView { name, dest, options: seq![option] }
}

fn named_volume(name: String, dest: &str, option: &str) -> (named: NamedVolume)
    ensures
        named@ == volume(name@, dest@, option@),
{
    let options = strings(&[option]);
    assert(seq_view(options@) =~= seq![option@]);
    NamedVolume { name, dest: dest.to_owned(), options }
}

/// The supervisor binary, side-loaded read-only from its OCI image.
pub open spec fn supervisor_volumes(config: ConfigView) -> Seq<ImageVolumeView> {
    seq![
        ImageVolumeView {
            source: config.supervisor_image,
            destination: "/opt/openshell/bin"@,
            rw: false,
        },
    ]
}

fn supervisor_image_volumes(config: &PodmanComputeConfig) -> (volumes: Vec<ImageVolume>)
    ensures
        seq_view(volumes@) == supervisor_volumes(config@),
{
    let volumes = vec![
        ImageVolume {
            source: config.supervisor_image.clone(),
            destination: "/opt/openshell/bin".to_owned(),
            rw: false,
        },
    ];
    assert(seq_view(volumes@) =~= supervisor_volumes(config@));
    volumes
}

/// A shell command that is tried every 3 s, for at most 2 s, after 5 s; ten failures
/// in a row count.
pub open spec fn health_check(command: Seq<char>) -> HealthConfigView {
    HealthConfigView {
        test: seq!["CMD-SHELL"@, command],
        interval: 3_000_000_000,
        timeout: 2_000_000_000,
        retries: 10,
        start_period: 5_000_000_000,
    }
}

fn health_config(command: &str) -> (health: HealthConfig)
    ensures
        health@ == health_check(command@),
{
    let test = strings(&["CMD-SHELL", command]);
    assert(seq_view(test@) =~= seq!["CMD-SHELL"@, command@]);
    HealthConfig {
        test,
        interval: 3_000_000_000,
        timeout: 2_000_000_000,
        retries: 10,
        start_period: 5_000_000_000,
    }
}

/// The supervisor is ready: its sentinel is there, or its SSH socket, or its port
/// is open.
pub open spec fn ssh_ready_command(config: ConfigView) -> Seq<char> {
    "test -e /var/run/openshell-ssh-ready || test -S "@ + config.sandbox_ssh_socket_path
        + " || ss -tlnp | grep -q :"@ + decimal_text(config.ssh_port)
}

fn ssh_health_config(config: &PodmanComputeConfig) -> (health: HealthConfig)
    ensures
        health@ == health_check(ssh_ready_command(config@)),
{
    let mut command = joined(
        "test -e /var/run/openshell-ssh-ready || test -S ",
        config.sandbox_ssh_socket_path.as_str(),
    );
    command.append(" || ss -tlnp | grep -q :");
    command.append(decimal(config.ssh_port as u64).as_str());
    health_config(command.as_str())
}

/// The SSH handshake secret, from the Podman secret of the sandbox.
pub open spec fn handshake_secret(sandbox: SandboxView) -> Names {
    map!["OPENSHELL_SSH_HANDSHAKE_SECRET"@ => secret_name_text(sandbox.id)]
}

fn handshake_secret_env(sandbox: &DriverSandbox) -> (secret_env: StringMap<String>)
    ensures
        secret_env@ == handshake_secret(sandbox@),
{
    let mut secret_env: StringMap<String> = StringMap::new();
    secret_env.insert(
        "OPENSHELL_SSH_HANDSHAKE_SECRET".to_owned(),
        secret_name(sandbox.id.as_str()),
    );
    secret_env
}

/// One network, without a static address.
pub open spec fn only_network(network: Seq<char>) -> Map<Seq<char>, NetworkAttachmentView> {
    map![network => NetworkAttachmentView { static_ip: None }]
}

fn single_network(network: &str) -> (networks: StringMap<NetworkAttachment>)
    ensures
        networks@ == only_network(network@),
{
    let mut networks: StringMap<NetworkAttachment> = StringMap::new();
    networks.insert(network.to_owned(), NetworkAttachment { static_ip: None });
    networks
}

/// The SSH port, published on an ephemeral port of the host.
pub open spec fn ssh_port_mappings(config: ConfigView) -> Seq<PortMappingView> {
    seq![
        PortMappingView { host_port: 0, container_port: config.ssh_port, protocol: "tcp"@ },
    ]
}

fn published_ssh_port(config: &PodmanComputeConfig) -> (mappings: Vec<PortMapping>)
    ensures
        seq_view(mappings@) == ssh_port_mappings(config@),
{
    let mappings = vec![
        PortMapping { host_port: 0, container_port: config.ssh_port, protocol: "tcp".to_owned() },
    ];
    assert(seq_view(mappings@) =~= ssh_port_mappings(config@));
    mappings
}

/// Stable names of the host: Podman's, and the one that does not depend on the
/// driver.
pub open spec fn host_aliases() -> Seq<Seq<char>> {
    seq!["host.containers.internal:host-gateway"@, "host.openshell.internal:host-gateway"@]
}

/// The supervisor, which every container runs.
pub open spec fn supervisor_entrypoint() -> Seq<Seq<char>> {
    seq!["/opt/openshell/bin/openshell-sandbox"@]
}

/// The environment of a nested container: the supervisor is told to enforce
/// nothing, and credentials are pointed to unless the user points elsewhere.
pub open spec fn nested_env(sandbox: SandboxView, config: ConfigView) -> Names {
    let env = workload_env(sandbox, config, image_text(sandbox, config)).insert(
        "OPENSHELL_MODE"@,
        "nested"@,
    );
    if config.adc_host_path is Some && !env.contains_key("GOOGLE_APPLICATION_CREDENTIALS"@) {
        env.insert("GOOGLE_APPLICATION_CREDENTIALS"@, ADC_MOUNT_PATH@)
    } else {
        env
    }
}

/// The devices of a nested container: GPUs if requested, and the one that inner
/// containers need for their storage.
pub open spec fn nested_devices(sandbox: SandboxView) -> Seq<LinuxDeviceView> {
    let gpus = match gpu_devices(sandbox) {
        Some(devices) => devices,
        None => Seq::empty(),
    };
    gpus.push(LinuxDeviceView { path: "/dev/fuse"@ })
}

/// The container of a nested sandbox: the supervisor for SSH and exec, without
/// inner sandboxing, and with what inner container runtimes need.
pub open spec fn nested_container(
    sandbox: SandboxView,
    config: ConfigView,
    selinux_enabled: bool,
) -> ContainerSpecView {
    ContainerSpecView {
        name: container_name_text(sandbox.name),
        image: image_text(sandbox, config),
        labels: container_labels(sandbox),
        env: nested_env(sandbox, config),
        volumes: seq![volume(volume_name_text(sandbox.id), "/sandbox"@, "rw"@)],
        image_volumes: supervisor_volumes(config),
        hostname: "sandbox-"@ + sandbox.name,
        entrypoint: supervisor_entrypoint(),
        command: Seq::empty(),
        user: "0:0"@,
        cap_drop: seq!["NET_BIND_SERVICE"@, "NET_RAW"@],
        cap_add: seq!["SYS_ADMIN"@, "NET_ADMIN"@],
        no_new_privileges: false,
        seccomp_profile_path: "unconfined"@,
        image_pull_policy: config.image_pull_policy,
        healthconfig: health_check(ssh_ready_command(config)),
        resource_limits: limits(cpu_quota(sandbox), memory_limit(sandbox)),
        secret_env: handshake_secret(sandbox),
        stop_timeout: config.stop_timeout_secs,
        hostadd: host_aliases(),
        netns: NetNSView { nsmode: "bridge"@ },
        networks: only_network(config.network_name),
        devices: Some(nested_devices(sandbox)),
        mounts: adc_mounts(config).push(netns_mount()) + tls_mounts(config, selinux_enabled),
        portmappings: ssh_port_mappings(config),
        dns_server: Seq::empty(),
        unmask: seq!["/proc/*"@, "/sys/fs/cgroup"@],
        selinux_opts: seq!["disable"@],
    }
}

fn build_nested_env(sandbox: &DriverSandbox, config: &PodmanComputeConfig, image: &str) -> (env:
    StringMap<String>)
    requires
        image@ == image_text(sandbox@, config@),
    ensures
        env@ == nested_env(sandbox@, config@),
{
    let mut env = build_env(sandbox, config, image);
    set(&mut env, "OPENSHELL_MODE", "nested");
    if config.adc_host_path.is_some() {
        env.insert_if_absent(
            "GOOGLE_APPLICATION_CREDENTIALS".to_owned(),
            ADC_MOUNT_PATH.to_owned(),
        );
    }
    env
}

fn build_nested_devices(sandbox: &DriverSandbox) -> (devices: Vec<LinuxDevice>)
    ensures
        seq_view(devices@) == nested_devices(sandbox@),
{
    let mut devices = match build_devices(sandbox) {
        Some(devices) => devices,
        None => Vec::new(),
    };
    devices.push(device("/dev/fuse"));
    assert(seq_view(devices@) =~= nested_devices(sandbox@));
    devices
}

fn build_nested_mounts(config: &PodmanComputeConfig, selinux_enabled: bool) -> (mounts: Vec<Mount>)
    ensures
        seq_view(mounts@) == adc_mounts(config@).push(netns_mount()) + tls_mounts(
            config@,
            selinux_enabled,
        ),
{
    let mut mounts: Vec<Mount> = Vec::new();
    if let Some(host_path) = &config.adc_host_path {
        mounts.push(read_only_bind(host_path.as_str(), ADC_MOUNT_PATH, false));
    }
    mounts.push(netns_tmpfs());
    assert(seq_view(mounts@) =~= adc_mounts(config@).push(netns_mount()));
    push_tls_mounts(&mut mounts, config, selinux_enabled);
    mounts
}

/// Build a nested container spec: supervisor injected for SSH/exec, but no
/// inner sandboxing (no Landlock, no seccomp, no netns, no privilege dropping).
///
/// The container runs with the kernel permissions needed for nested
/// containerization (`unmask`, `selinux_opts`, `no_new_privileges=false`).
/// The supervisor binary is side-loaded and provides SSH access, but is told
/// to skip all security enforcement via `OPENSHELL_MODE=nested`.
pub fn build_container_spec_passthrough(
    sandbox: &DriverSandbox,
    config: &PodmanComputeConfig,
    selinux_enabled: bool,
) -> (value: serde_json::Value)
    ensures
        document(value) == ContainerSpec::json(nested_container(sandbox@, config@, selinux_enabled)),
{
    let image = resolve_image(sandbox, config);
    let volumes = vec![named_volume(volume_name(sandbox.id.as_str()), "/sandbox", "rw")];
    let spec = ContainerSpec {
        name: container_name(sandbox.name.as_str()),
        image: image.to_owned(),
        labels: build_labels(sandbox),
        env: build_nested_env(sandbox, config, image),
        volumes,
        image_volumes: supervisor_image_volumes(config),
        hostname: joined("sandbox-", sandbox.name.as_str()),
        // Run the supervisor as the entrypoint so SSH/exec are available.
        entrypoint: strings(&["/opt/openshell/bin/openshell-sandbox"]),
        command: Vec::new(),
        // Run as root so nested container tools have the permissions needed to
        // manage storage and create namespaces.
        user: "0:0".to_owned(),
        // Keep what nested container runtimes need; drop only what is clearly
        // unnecessary.
        cap_drop: strings(&["NET_BIND_SERVICE", "NET_RAW"]),
        cap_add: strings(&["SYS_ADMIN", "NET_ADMIN"]),
        // Nested container runtimes need privilege transitions.
        no_new_privileges: false,
        // The inner runtime installs its own seccomp filter.
        seccomp_profile_path: "unconfined".to_owned(),
        image_pull_policy: config.image_pull_policy.clone(),
        healthconfig: ssh_health_config(config),
        resource_limits: build_resource_limits(sandbox),
        secret_env: handshake_secret_env(sandbox),
        stop_timeout: config.stop_timeout_secs,
        hostadd: strings(
            &["host.containers.internal:host-gateway", "host.openshell.internal:host-gateway"],
        ),
        netns: NetNS { nsmode: "bridge".to_owned() },
        networks: single_network(config.network_name.as_str()),
        // With /dev/fuse inner rootless Podman can use fuse-overlayfs.
        devices: Some(build_nested_devices(sandbox)),
        mounts: build_nested_mounts(config, selinux_enabled),
        portmappings: published_ssh_port(config),
        dns_server: Vec::new(),
        // The inner runtime reads process info and manages cgroups.
        unmask: strings(&["/proc/*", "/sys/fs/cgroup"]),
        // SELinux labels would block the inner runtime's bind mounts.
        selinux_opts: strings(&["disable"]),
    };
    proof {
        let view = nested_container(sandbox@, config@, selinux_enabled);
        assert(spec@.volumes =~= view.volumes);
        assert(spec@.entrypoint =~= view.entrypoint);
        assert(spec@.command =~= view.command);
        assert(spec@.cap_drop =~= view.cap_drop);
        assert(spec@.cap_add =~= view.cap_add);
        assert(spec@.hostadd =~= view.hostadd);
        assert(spec@.dns_server =~= view.dns_server);
        assert(spec@.unmask =~= view.unmask);
        assert(spec@.selinux_opts =~= view.selinux_opts);
    }
    spec.to_value()
}

/// Build the Podman container creation JSON spec of a nested sandbox.
///
/// A supervised sandbox has two containers instead: see
/// [`build_proxy_sidecar_spec`] and [`build_agent_container_spec`].
#[must_use]
pub fn build_container_spec(
    sandbox: &DriverSandbox,
    config: &PodmanComputeConfig,
    selinux_enabled: bool,
) -> (value: serde_json::Value)
    requires
        sandbox@.is_nested(),
    ensures
        document(value) == ContainerSpec::json(nested_container(sandbox@, config@, selinux_enabled)),
{
    build_container_spec_passthrough(sandbox, config, selinux_enabled)
}

/// The capabilities that the containers of a supervised sandbox do not keep.
pub open spec fn sidecar_cap_drop() -> Seq<Seq<char>> {
    seq![
        "DAC_OVERRIDE"@,
        "FSETID"@,
        "KILL"@,
        "NET_BIND_SERVICE"@,
        "NET_RAW"@,
        "SETFCAP"@,
        "SETPCAP"@,
        "SYS_CHROOT"@,
    ]
}

fn sidecar_dropped_caps() -> (caps: Vec<String>)
    ensures
        seq_view(caps@) == sidecar_cap_drop(),
{
    let caps = strings(
        &[
            "DAC_OVERRIDE",
            "FSETID",
            "KILL",
            "NET_BIND_SERVICE",
            "NET_RAW",
            "SETFCAP",
            "SETPCAP",
            "SYS_CHROOT",
        ],
    );
    assert(seq_view(caps@) =~= sidecar_cap_drop());
    caps
}

/// Where the proxy and the agent mount the TLS volume that they share.
pub const TLS_SHARED_PATH: &'static str = "/openshell-tls";

/// Proxy sidecar resource limits: 1 CPU core, 512 MiB memory.
pub const PROXY_CPU_QUOTA: u64 = 100_000;

pub const PROXY_MEMORY_LIMIT: u64 = 536_870_912;

/// The environment of the proxy: it runs no workload of the user, so of what the
/// user asked for it has the log level only.
pub open spec fn proxy_env(sandbox: SandboxView, config: ConfigView) -> Names {
    let env = map![
        "OPENSHELL_MODE"@ => "proxy"@,
        "OPENSHELL_ENDPOINT"@ => config.grpc_endpoint,
        "OPENSHELL_SANDBOX_ID"@ => sandbox.id,
        "OPENSHELL_SANDBOX"@ => sandbox.name,
        "OPENSHELL_SSH_HANDSHAKE_SKEW_SECS"@ => decimal_text(config.ssh_handshake_skew_secs),
    ];
    match sandbox.spec {
        Some(spec) => if spec.log_level.len() > 0 {
            map!["OPENSHELL_LOG_LEVEL"@ => spec.log_level].union_prefer_right(env)
        } else {
            env
        },
        None => env,
    }
}

/// The proxy sidecar of a supervised sandbox.
pub open spec fn proxy_container(
    sandbox: SandboxView,
    config: ConfigView,
    internal_network: Seq<char>,
    dns_servers: Seq<Seq<char>>,
) -> ContainerSpecView {
    ContainerSpecView {
        name: proxy_container_name_text(sandbox.name),
        image: image_text(sandbox, config),
        labels: container_labels(sandbox).insert(LABEL_ROLE@, ROLE_PROXY@),
        env: proxy_env(sandbox, config),
        volumes: seq![volume(tls_volume_name_text(sandbox.id), TLS_SHARED_PATH@, "rw"@)],
        image_volumes: supervisor_volumes(config),
        hostname: "proxy-"@ + sandbox.name,
        entrypoint: supervisor_entrypoint(),
        command: Seq::empty(),
        user: "0:0"@,
        cap_drop: sidecar_cap_drop(),
        cap_add: seq!["SYS_ADMIN"@, "NET_ADMIN"@],
        no_new_privileges: true,
        seccomp_profile_path: "unconfined"@,
        image_pull_policy: config.image_pull_policy,
        healthconfig: health_check("test -e /openshell-tls/.ready"@),
        resource_limits: limits(PROXY_CPU_QUOTA, PROXY_MEMORY_LIMIT),
        secret_env: handshake_secret(sandbox),
        stop_timeout: config.stop_timeout_secs,
        hostadd: seq!["host.containers.internal:host-gateway"@],
        netns: NetNSView { nsmode: "bridge"@ },
        networks: only_network(internal_network),
        devices: None,
        mounts: Seq::empty(),
        portmappings: Seq::empty(),
        dns_server: dns_servers,
        unmask: Seq::empty(),
        selinux_opts: Seq::empty(),
    }
}

fn build_proxy_env(sandbox: &DriverSandbox, config: &PodmanComputeConfig) -> (env: StringMap<
    String,
>)
    ensures
        env@ == proxy_env(sandbox@, config@),
{
    let mut env: StringMap<String> = StringMap::new();
    // Propagate log level from spec if set.
    if let Some(spec) = &sandbox.spec {
        if !spec.log_level.as_str().is_empty() {
            set(&mut env, "OPENSHELL_LOG_LEVEL", spec.log_level.as_str());
        }
    }
    set(&mut env, "OPENSHELL_MODE", "proxy");
    set(&mut env, "OPENSHELL_ENDPOINT", config.grpc_endpoint.as_str());
    set(&mut env, "OPENSHELL_SANDBOX_ID", sandbox.id.as_str());
    set(&mut env, "OPENSHELL_SANDBOX", sandbox.name.as_str());
    set(
        &mut env,
        "OPENSHELL_SSH_HANDSHAKE_SKEW_SECS",
        decimal(config.ssh_handshake_skew_secs).as_str(),
    );
    assert(env@ =~= proxy_env(sandbox@, config@));
    env
}

/// Build the proxy sidecar container spec for the sidecar architecture.
///
/// The proxy container runs the supervisor in `proxy` mode, handling all
/// network enforcement (egress filtering, mTLS termination). It is created
/// on the internal network first; the driver connects it to the bridge
/// network after creation.
#[must_use]
pub fn build_proxy_sidecar_spec(
    sandbox: &DriverSandbox,
    config: &PodmanComputeConfig,
    internal_network: &str,
    host_dns_servers: &[String],
) -> (value: serde_json::Value)
    ensures
        document(value) == ContainerSpec::json(
            proxy_container(sandbox@, config@, internal_network@, seq_view(host_dns_servers@)),
        ),
{
    let mut labels = build_labels(sandbox);
    set(&mut labels, LABEL_ROLE, ROLE_PROXY);
    let volumes = vec![named_volume(tls_volume_name(sandbox.id.as_str()), TLS_SHARED_PATH, "rw")];
    let spec = ContainerSpec {
        name: proxy_container_name(sandbox.name.as_str()),
        // The image of the agent: it has a working dynamic linker, CA certs, and
        // common tools.
        image: resolve_image(sandbox, config).to_owned(),
        labels,
        env: build_proxy_env(sandbox, config),
        volumes,
        image_volumes: supervisor_image_volumes(config),
        hostname: joined("proxy-", sandbox.name.as_str()),
        entrypoint: strings(&["/opt/openshell/bin/openshell-sandbox"]),
        command: Vec::new(),
        user: "0:0".to_owned(),
        // The proxy scans no /proc: neither SYS_PTRACE nor DAC_READ_SEARCH.
        cap_drop: sidecar_dropped_caps(),
        cap_add: strings(&["SYS_ADMIN", "NET_ADMIN"]),
        no_new_privileges: true,
        seccomp_profile_path: "unconfined".to_owned(),
        image_pull_policy: config.image_pull_policy.clone(),
        // The proxy writes the sentinel once the mTLS material is generated.
        healthconfig: health_config("test -e /openshell-tls/.ready"),
        resource_limits: ResourceLimits {
            cpu: CpuLimits { quota: PROXY_CPU_QUOTA, period: DEFAULT_CPU_PERIOD },
            memory: MemoryLimits { limit: PROXY_MEMORY_LIMIT },
        },
        secret_env: handshake_secret_env(sandbox),
        stop_timeout: config.stop_timeout_secs,
        hostadd: strings(&["host.containers.internal:host-gateway"]),
        netns: NetNS { nsmode: "bridge".to_owned() },
        // Internal network only: the bridge is added later.
        networks: single_network(internal_network),
        devices: None,
        mounts: Vec::new(),
        // The proxy is only reachable from the internal network.
        portmappings: Vec::new(),
        dns_server: copies(host_dns_servers),
        unmask: Vec::new(),
        selinux_opts: Vec::new(),
    };
    proof {
        let view = proxy_container(
            sandbox@,
            config@,
            internal_network@,
            seq_view(host_dns_servers@),
        );
        assert(spec@.volumes =~= view.volumes);
        assert(spec@.entrypoint =~= view.entrypoint);
        assert(spec@.command =~= view.command);
        assert(spec@.cap_add =~= view.cap_add);
        assert(spec@.hostadd =~= view.hostadd);
        assert(spec@.mounts =~= view.mounts);
        assert(spec@.portmappings =~= view.portmappings);
        assert(spec@.unmask =~= view.unmask);
        assert(spec@.selinux_opts =~= view.selinux_opts);
    }
    spec.to_value()
}

/// The variables that route the agent's traffic through the proxy.
pub open spec fn sidecar_env(proxy_ip: Seq<char>) -> Names {
    let proxy_url = "http://"@ + proxy_ip + ":3128"@;
    let no_proxy = "127.0.0.1,localhost,::1,"@ + proxy_ip;
    let ca_bundle = "/openshell-tls/ca-bundle.pem"@;
    map![
        "OPENSHELL_PROXY_MODE"@ => "sidecar"@,
        "OPENSHELL_ENDPOINT"@ => "http://"@ + proxy_ip + ":8081"@,
        "HTTP_PROXY"@ => proxy_url,
        "HTTPS_PROXY"@ => proxy_url,
        "NO_PROXY"@ => no_proxy,
        "no_proxy"@ => no_proxy,
        "SSL_CERT_FILE"@ => ca_bundle,
        "NODE_EXTRA_CA_CERTS"@ => "/openshell-tls/openshell-ca.pem"@,
        "CURL_CA_BUNDLE"@ => ca_bundle,
        "GIT_SSL_CAINFO"@ => ca_bundle,
        "REQUESTS_CA_BUNDLE"@ => ca_bundle,
        "GIT_SSH_COMMAND"@ => "echo 'SSH disabled — use HTTPS' && exit 1"@,
    ]
}

/// The environment of the agent.
pub open spec fn agent_env(sandbox: SandboxView, config: ConfigView, proxy_ip: Seq<char>) -> Names {
    workload_env(sandbox, config, image_text(sandbox, config)).union_prefer_right(
        sidecar_env(proxy_ip),
    )
}

/// The agent container of a supervised sandbox.
pub open spec fn agent_container(
    sandbox: SandboxView,
    config: ConfigView,
    internal_network: Seq<char>,
    proxy_ip: Seq<char>,
    tls_volume: Seq<char>,
    selinux_enabled: bool,
) -> ContainerSpecView {
    ContainerSpecView {
        name: container_name_text(sandbox.name),
        image: image_text(sandbox, config),
        labels: container_labels(sandbox).insert(LABEL_ROLE@, ROLE_AGENT@),
        env: agent_env(sandbox, config, proxy_ip),
        volumes: seq![
            volume(volume_name_text(sandbox.id), "/sandbox"@, "rw"@),
            volume(tls_volume, TLS_SHARED_PATH@, "ro"@),
        ],
        image_volumes: supervisor_volumes(config),
        hostname: "sandbox-"@ + sandbox.name,
        entrypoint: supervisor_entrypoint(),
        command: Seq::empty(),
        user: "0:0"@,
        cap_drop: sidecar_cap_drop(),
        cap_add: seq!["SYS_ADMIN"@, "NET_ADMIN"@, "SYSLOG"@],
        no_new_privileges: true,
        seccomp_profile_path: "unconfined"@,
        image_pull_policy: config.image_pull_policy,
        healthconfig: health_check(ssh_ready_command(config)),
        resource_limits: limits(cpu_quota(sandbox), memory_limit(sandbox)),
        secret_env: handshake_secret(sandbox),
        stop_timeout: config.stop_timeout_secs,
        hostadd: host_aliases(),
        netns: NetNSView { nsmode: "bridge"@ },
        networks: only_network(internal_network),
        devices: gpu_devices(sandbox),
        mounts: seq![netns_mount()] + tls_mounts(config, selinux_enabled),
        portmappings: ssh_port_mappings(config),
        dns_server: Seq::empty(),
        unmask: Seq::empty(),
        selinux_opts: Seq::empty(),
    }
}

/// Route the traffic of a container through the proxy.
fn set_sidecar_env(env: &mut StringMap<String>, proxy_ip: &str)
    ensures
        final(env)@ == old(env)@.union_prefer_right(sidecar_env(proxy_ip@)),
{
    let ghost before = env@;
    // Sidecar mode: supervisor skips network enforcement (proxy handles it).
    set(env, "OPENSHELL_PROXY_MODE", "sidecar");
    let host = joined("http://", proxy_ip);
    // Route gRPC traffic through the proxy's TCP forwarder.
    set(env, "OPENSHELL_ENDPOINT", joined(host.as_str(), ":8081").as_str());
    // HTTP proxy env vars for all outbound traffic.
    let proxy_url = joined(host.as_str(), ":3128");
    set(env, "HTTP_PROXY", proxy_url.as_str());
    set(env, "HTTPS_PROXY", proxy_url.as_str());
    // With the proxy among the exceptions, gRPC traffic to the TCP forwarder does
    // not go through the HTTP proxy as well.
    let no_proxy = joined("127.0.0.1,localhost,::1,", proxy_ip);
    set(env, "NO_PROXY", no_proxy.as_str());
    set(env, "no_proxy", no_proxy.as_str());
    // On the shared TLS volume the proxy writes its CA, and a bundle of the system
    // CAs with it.
    let ca_bundle = "/openshell-tls/ca-bundle.pem";
    set(env, "SSL_CERT_FILE", ca_bundle);
    set(env, "NODE_EXTRA_CA_CERTS", "/openshell-tls/openshell-ca.pem");
    set(env, "CURL_CA_BUNDLE", ca_bundle);
    set(env, "GIT_SSL_CAINFO", ca_bundle);
    set(env, "REQUESTS_CA_BUNDLE", ca_bundle);
    // Block SSH to force HTTPS usage.
    set(env, "GIT_SSH_COMMAND", "echo 'SSH disabled — use HTTPS' && exit 1");
    assert(env@ =~= before.union_prefer_right(sidecar_env(proxy_ip@)));
}

fn build_agent_mounts(config: &PodmanComputeConfig, selinux_enabled: bool) -> (mounts: Vec<Mount>)
    ensures
        seq_view(mounts@) == seq![netns_mount()] + tls_mounts(config@, selinux_enabled),
{
    let mut mounts = vec![netns_tmpfs()];
    assert(seq_view(mounts@) =~= seq![netns_mount()]);
    push_tls_mounts(&mut mounts, config, selinux_enabled);
    mounts
}

/// Build the agent container spec for the sidecar architecture.
///
/// The agent container runs the user sandbox image with the supervisor
/// side-loaded. It connects only to the internal network (no bridge) and
/// routes all external traffic through the proxy sidecar via `HTTP_PROXY`.
#[must_use]
pub fn build_agent_container_spec(
    sandbox: &DriverSandbox,
    config: &PodmanComputeConfig,
    internal_network: &str,
    proxy_ip: &str,
    tls_volume: &str,
    selinux_enabled: bool,
) -> (value: serde_json::Value)
    ensures
        document(value) == ContainerSpec::json(
            agent_container(
                sandbox@,
                config@,
                internal_network@,
                proxy_ip@,
                tls_volume@,
                selinux_enabled,
            ),
        ),
{
    let image = resolve_image(sandbox, config);
    let mut env = build_env(sandbox, config, image);
    set_sidecar_env(&mut env, proxy_ip);
    let mut labels = build_labels(sandbox);
    set(&mut labels, LABEL_ROLE, ROLE_AGENT);
    let volumes = vec![
        named_volume(volume_name(sandbox.id.as_str()), "/sandbox", "rw"),
        // Read-only: only the proxy writes TLS material.
        named_volume(tls_volume.to_owned(), TLS_SHARED_PATH, "ro"),
    ];
    let spec = ContainerSpec {
        name: container_name(sandbox.name.as_str()),
        image: image.to_owned(),
        labels,
        env,
        volumes,
        image_volumes: supervisor_image_volumes(config),
        hostname: joined("sandbox-", sandbox.name.as_str()),
        entrypoint: strings(&["/opt/openshell/bin/openshell-sandbox"]),
        command: Vec::new(),
        user: "0:0".to_owned(),
        // Process identity is the proxy's concern: neither SYS_PTRACE nor
        // DAC_READ_SEARCH.
        cap_drop: sidecar_dropped_caps(),
        // SYSLOG: kernel log reading for bypass-detection diagnostics.
        cap_add: strings(&["SYS_ADMIN", "NET_ADMIN", "SYSLOG"]),
        no_new_privileges: true,
        seccomp_profile_path: "unconfined".to_owned(),
        image_pull_policy: config.image_pull_policy.clone(),
        healthconfig: ssh_health_config(config),
        resource_limits: build_resource_limits(sandbox),
        secret_env: handshake_secret_env(sandbox),
        stop_timeout: config.stop_timeout_secs,
        hostadd: strings(
            &["host.containers.internal:host-gateway", "host.openshell.internal:host-gateway"],
        ),
        netns: NetNS { nsmode: "bridge".to_owned() },
        // Internal network only: this is the isolation boundary.
        networks: single_network(internal_network),
        devices: build_devices(sandbox),
        mounts: build_agent_mounts(config, selinux_enabled),
        // In rootless Podman the bridge network is not routable from the host, so
        // the SSH port is published on an ephemeral one.
        portmappings: published_ssh_port(config),
        // External DNS is irrelevant: all traffic goes through the proxy.
        dns_server: Vec::new(),
        unmask: Vec::new(),
        selinux_opts: Vec::new(),
    };
    proof {
        let view = agent_container(
            sandbox@,
            config@,
            internal_network@,
            proxy_ip@,
            tls_volume@,
            selinux_enabled,
        );
        assert(spec@.volumes =~= view.volumes);
        assert(spec@.entrypoint =~= view.entrypoint);
        assert(spec@.command =~= view.command);
        assert(spec@.cap_add =~= view.cap_add);
        assert(spec@.hostadd =~= view.hostadd);
        assert(spec@.devices == view.devices);
        assert(spec@.dns_server =~= view.dns_server);
        assert(spec@.unmask =~= view.unmask);
        assert(spec@.selinux_opts =~= view.selinux_opts);
    }
    spec.to_value()
}

} // verus!
