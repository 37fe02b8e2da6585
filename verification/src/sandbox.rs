//! What the driver is asked to create: the sandbox, and the driver's configuration.
use crate::string_map::StringMap;
use crate::views::option_view;
use vstd::prelude::*;

verus! {

/// The template mode of a sandbox for inner containers.
pub const SANDBOX_MODE_NESTED: i32 = 2;

/// Resource limits, as quantities; an empty one is not given.
pub struct ResourceRequirements {
    pub cpu_limit: String,
    pub memory_limit: String,
}

/// What a sandbox is made from.
pub struct DriverSandboxTemplate {
    /// The OCI image; empty for the driver's default.
    pub image: String,
    pub environment: StringMap<String>,
    pub labels: StringMap<String>,
    pub resources: Option<ResourceRequirements>,
    pub mode: i32,
}

/// What a sandbox is asked to be.
pub struct DriverSandboxSpec {
    /// The supervisor's log level; empty for its default.
    pub log_level: String,
    pub environment: StringMap<String>,
    pub template: Option<DriverSandboxTemplate>,
    pub gpu: bool,
}

/// A sandbox.
pub struct DriverSandbox {
    pub id: String,
    pub name: String,
    pub namespace: String,
    pub spec: Option<DriverSandboxSpec>,
}

/// The part of the driver's configuration that containers are made from. Host
/// paths are text.
pub struct PodmanComputeConfig {
    pub default_image: String,
    pub supervisor_image: String,
    /// The pull policy, by the name that libpod gives it.
    pub image_pull_policy: String,
    pub grpc_endpoint: String,
    pub network_name: String,
    pub sandbox_ssh_socket_path: String,
    pub ssh_port: u16,
    pub ssh_handshake_skew_secs: u64,
    pub stop_timeout_secs: u32,
    pub guest_tls_ca: Option<String>,
    pub guest_tls_cert: Option<String>,
    pub guest_tls_key: Option<String>,
    /// Application default credentials on the host.
    pub adc_host_path: Option<String>,
}

/// A map from names to text.
pub type Names = Map<Seq<char>, Seq<char>>;

pub struct ResourceRequirementsView {
    pub cpu_limit: Seq<char>,
    pub memory_limit: Seq<char>,
}

pub struct TemplateView {
    pub image: Seq<char>,
    pub environment: Names,
    pub labels: Names,
    pub resources: Option<ResourceRequirementsView>,
    pub mode: int,
}

pub struct SandboxSpecView {
    pub log_level: Seq<char>,
    pub environment: Names,
    pub template: Option<TemplateView>,
    pub gpu: bool,
}

pub struct SandboxView {
    pub id: Seq<char>,
    pub name: Seq<char>,
    pub namespace: Seq<char>,
    pub spec: Option<SandboxSpecView>,
}

pub struct ConfigView {
    pub default_image: Seq<char>,
    pub supervisor_image: Seq<char>,
    pub image_pull_policy: Seq<char>,
    pub grpc_endpoint: Seq<char>,
    pub network_name: Seq<char>,
    pub sandbox_ssh_socket_path: Seq<char>,
    pub ssh_port: nat,
    pub ssh_handshake_skew_secs: nat,
    pub stop_timeout_secs: nat,
    pub guest_tls_ca: Option<Seq<char>>,
    pub guest_tls_cert: Option<Seq<char>>,
    pub guest_tls_key: Option<Seq<char>>,
    pub adc_host_path: Option<Seq<char>>,
}

impl View for ResourceRequirements {
    type V = ResourceRequirementsView;

    open spec fn view(&self) -> ResourceRequirementsView {
        ResourceRequirementsView { cpu_limit: self.cpu_limit@, memory_limit: self.memory_limit@ }
    }
}

impl View for DriverSandboxTemplate {
    type V = TemplateView;

    open spec fn view(&self) -> TemplateView {
        TemplateView {
            image: self.image@,
            environment: self.environment@,
            labels: self.labels@,
            resources: option_view(self.resources),
            mode: self.mode as int,
        }
    }
}

impl View for DriverSandboxSpec {
    type V = SandboxSpecView;

    open spec fn view(&self) -> SandboxSpecView {
        SandboxSpecView {
            log_level: self.log_level@,
            environment: self.environment@,
            template: option_view(self.template),
            gpu: self.gpu,
        }
    }
}

impl View for DriverSandbox {
    type V = SandboxView;

    open spec fn view(&self) -> SandboxView {
        SandboxView {
            id: self.id@,
            name: self.name@,
            namespace: self.namespace@,
            spec: option_view(self.spec),
        }
    }
}

impl View for PodmanComputeConfig {
    type V = ConfigView;

    open spec fn view(&self) -> ConfigView {
        ConfigView {
            default_image: self.default_image@,
            supervisor_image: self.supervisor_image@,
            image_pull_policy: self.image_pull_policy@,
            grpc_endpoint: self.grpc_endpoint@,
            network_name: self.network_name@,
            sandbox_ssh_socket_path: self.sandbox_ssh_socket_path@,
            ssh_port: self.ssh_port as nat,
            ssh_handshake_skew_secs: self.ssh_handshake_skew_secs as nat,
            stop_timeout_secs: self.stop_timeout_secs as nat,
            guest_tls_ca: option_view(self.guest_tls_ca),
            guest_tls_cert: option_view(self.guest_tls_cert),
            guest_tls_key: option_view(self.guest_tls_key),
            adc_host_path: option_view(self.adc_host_path),
        }
    }
}

impl SandboxView {
    /// The template, where the sandbox has one.
    pub open spec fn template(self) -> Option<TemplateView> {
        match self.spec {
            Some(spec) => spec.template,
            None => None,
        }
    }

    /// The resource limits, where the template gives any.
    pub open spec fn resources(self) -> Option<ResourceRequirementsView> {
        match self.template() {
            Some(template) => template.resources,
            None => None,
        }
    }

    /// The sandbox is for inner containers.
    pub open spec fn is_nested(self) -> bool {
        self.template() matches Some(template) && template.mode == SANDBOX_MODE_NESTED
    }

    /// A GPU is requested.
    pub open spec fn wants_gpu(self) -> bool {
        self.spec matches Some(spec) && spec.gpu
    }
}

impl ConfigView {
    /// All three parts of the client TLS material are configured.
    pub open spec fn tls_enabled(self) -> bool {
        self.guest_tls_ca is Some && self.guest_tls_cert is Some && self.guest_tls_key is Some
    }
}

impl DriverSandbox {
    /// The template, where the sandbox has one.
    pub(crate) fn template(&self) -> (template: Option<&DriverSandboxTemplate>)
        ensures
            self@.template() == match template {
                Some(t) => Some(t@),
                None => None,
            },
    {
        match &self.spec {
            Some(spec) => spec.template.as_ref(),
            None => None,
        }
    }

    /// The resource limits, where the template gives any.
    pub(crate) fn resources(&self) -> (resources: Option<&ResourceRequirements>)
        ensures
            self@.resources() == match resources {
                Some(r) => Some(r@),
                None => None,
            },
    {
        match self.template() {
            Some(template) => template.resources.as_ref(),
            None => None,
        }
    }
}

impl PodmanComputeConfig {
    /// Whether client TLS material is mounted into containers: whether all three
    /// paths are configured.
    pub fn tls_enabled(&self) -> (enabled: bool)
        ensures
            enabled == self@.tls_enabled(),
    {
        self.guest_tls_ca.is_some() && self.guest_tls_cert.is_some() && self.guest_tls_key.is_some()
    }
}

impl Default for DriverSandboxTemplate {
    fn default() -> (template: Self)
        ensures
            template@ == (TemplateView {
                image: Seq::empty(),
                environment: Map::empty(),
                labels: Map::empty(),
                resources: None,
                mode: 0,
            }),
    {
        DriverSandboxTemplate {
            image: String::new(),
            environment: StringMap::new(),
            labels: StringMap::new(),
            resources: None,
            mode: 0,
        }
    }
}

impl Default for DriverSandboxSpec {
    fn default() -> (spec: Self)
        ensures
            spec@ == (SandboxSpecView {
                log_level: Seq::empty(),
                environment: Map::empty(),
                template: None,
                gpu: false,
            }),
    {
        DriverSandboxSpec {
            log_level: String::new(),
            environment: StringMap::new(),
            template: None,
            gpu: false,
        }
    }
}

/// A sandbox is seen as it is.
pub proof fn law_sandbox_view(sandbox: DriverSandbox)
    ensures
        sandbox@.id == sandbox.id@,
        sandbox@.name == sandbox.name@,
        sandbox@.namespace == sandbox.namespace@,
        sandbox@.spec is Some <==> sandbox.spec is Some,
        sandbox.spec matches Some(spec) ==> sandbox@.spec == Some(spec@),
{
}

/// A spec is seen as it is.
pub proof fn law_spec_view(spec: DriverSandboxSpec)
    ensures
        spec@.log_level == spec.log_level@,
        spec@.environment == spec.environment@,
        spec@.gpu == spec.gpu,
        spec@.template is Some <==> spec.template is Some,
        spec.template matches Some(template) ==> spec@.template == Some(template@),
{
}

/// A template is seen as it is.
pub proof fn law_template_view(template: DriverSandboxTemplate)
    ensures
        template@.image == template.image@,
        template@.environment == template.environment@,
        template@.labels == template.labels@,
        template@.mode == template.mode,
        template@.resources is Some <==> template.resources is Some,
        template.resources matches Some(resources) ==> template@.resources == Some(resources@),
{
}

/// Quantities are seen as they are.
pub proof fn law_resources_view(resources: ResourceRequirements)
    ensures
        resources@.cpu_limit == resources.cpu_limit@,
        resources@.memory_limit == resources.memory_limit@,
{
}

/// A configuration is seen as it is.
pub proof fn law_config_view(config: PodmanComputeConfig)
    ensures
        config@.default_image == config.default_image@,
        config@.supervisor_image == config.supervisor_image@,
        config@.image_pull_policy == config.image_pull_policy@,
        config@.grpc_endpoint == config.grpc_endpoint@,
        config@.network_name == config.network_name@,
        config@.sandbox_ssh_socket_path == config.sandbox_ssh_socket_path@,
        config@.ssh_port == config.ssh_port,
        config@.ssh_handshake_skew_secs == config.ssh_handshake_skew_secs,
        config@.stop_timeout_secs == config.stop_timeout_secs,
        config@.guest_tls_ca is Some <==> config.guest_tls_ca is Some,
        config.guest_tls_ca matches Some(path) ==> config@.guest_tls_ca == Some(path@),
        config@.guest_tls_cert is Some <==> config.guest_tls_cert is Some,
        config.guest_tls_cert matches Some(path) ==> config@.guest_tls_cert == Some(path@),
        config@.guest_tls_key is Some <==> config.guest_tls_key is Some,
        config.guest_tls_key matches Some(path) ==> config@.guest_tls_key == Some(path@),
        config@.adc_host_path is Some <==> config.adc_host_path is Some,
        config.adc_host_path matches Some(path) ==> config@.adc_host_path == Some(path@),
{
}

} // verus!
