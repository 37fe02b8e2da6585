//! What holds of the containers of every sandbox.
use crate::container::{
    adc_mounts, agent_container, agent_env, bind_mount, bind_options, container_name_text,
    gpu_devices, image_text, internal_network_name_text, managed_labels, nested_container,
    nested_devices, nested_env, netns_mount, proxy_container, proxy_container_name_text, proxy_env,
    required_env, secret_name_text, short_id_text, sidecar_cap_drop, sidecar_env,
    tls_volume_name_text, user_env, user_labels, volume, volume_name_text, ADC_MOUNT_PATH,
    CDI_GPU_DEVICE_ALL, CONTAINER_PREFIX, LABEL_MANAGED, LABEL_ROLE, LABEL_SANDBOX_ID,
    LABEL_SANDBOX_NAME, LABEL_SANDBOX_NAMESPACE, NETWORK_PREFIX, PROXY_PREFIX, ROLE_AGENT,
    ROLE_PROXY, SECRET_PREFIX, TLS_CA_MOUNT_PATH, TLS_CERT_MOUNT_PATH, TLS_KEY_MOUNT_PATH,
    TLS_SHARED_PATH, TLS_VOLUME_PREFIX, VOLUME_PREFIX, VOLUME_SUFFIX,
};
use crate::container_spec::{LinuxDeviceView, MountView};
use crate::cores::PERIOD_MICROS;
use crate::quantity::law_quota_not_zero;
use crate::sandbox::{ConfigView, Names, SandboxView};
use crate::text::decimal_text;
use vstd::prelude::*;

verus! {

/// Every entry of `part` is an entry of `whole`.
pub open spec fn holds_all(whole: Names, part: Names) -> bool {
    forall|key: Seq<char>| #[trigger]
        part.contains_key(key) ==> whole.contains_key(key) && whole[key] == part[key]
}

proof fn lemma_prefix_injective(prefix: Seq<char>, a: Seq<char>, b: Seq<char>)
    requires
        prefix + a == prefix + b,
    ensures
        a == b,
{
    assert((prefix + a).skip(prefix.len() as int) =~= a);
    assert((prefix + b).skip(prefix.len() as int) =~= b);
}

/// Sandboxes of different names have different containers; sandboxes of different
/// IDs have different volumes, networks and secrets.
pub proof fn law_names_injective(a: Seq<char>, b: Seq<char>)
    requires
        a != b,
    ensures
        container_name_text(a) != container_name_text(b),
        proxy_container_name_text(a) != proxy_container_name_text(b),
        volume_name_text(a) != volume_name_text(b),
        tls_volume_name_text(a) != tls_volume_name_text(b),
        internal_network_name_text(a) != internal_network_name_text(b),
        secret_name_text(a) != secret_name_text(b),
{
    if container_name_text(a) == container_name_text(b) {
        lemma_prefix_injective(CONTAINER_PREFIX@, a, b);
    }
    if proxy_container_name_text(a) == proxy_container_name_text(b) {
        lemma_prefix_injective(PROXY_PREFIX@, a, b);
    }
    if volume_name_text(a) == volume_name_text(b) {
        let x = VOLUME_PREFIX@ + a;
        let y = VOLUME_PREFIX@ + b;
        assert(x + VOLUME_SUFFIX@ == y + VOLUME_SUFFIX@);
        assert((x + VOLUME_SUFFIX@).len() == (y + VOLUME_SUFFIX@).len());
        assert((x + VOLUME_SUFFIX@).take(x.len() as int) =~= x);
        assert((y + VOLUME_SUFFIX@).take(y.len() as int) =~= y);
        lemma_prefix_injective(VOLUME_PREFIX@, a, b);
    }
    if tls_volume_name_text(a) == tls_volume_name_text(b) {
        lemma_prefix_injective(TLS_VOLUME_PREFIX@, a, b);
    }
    if internal_network_name_text(a) == internal_network_name_text(b) {
        lemma_prefix_injective(NETWORK_PREFIX@, a, b);
    }
    if secret_name_text(a) == secret_name_text(b) {
        lemma_prefix_injective(SECRET_PREFIX@, a, b);
    }
}

/// No agent container has the name of a proxy container, and no workspace volume
/// that of a TLS volume, whatever the sandboxes are called.
pub proof fn law_names_disjoint(a: Seq<char>, b: Seq<char>)
    ensures
        container_name_text(a) != proxy_container_name_text(b),
        volume_name_text(a) != tls_volume_name_text(b),
{
    reveal_strlit("openshell-sandbox-");
    reveal_strlit("openshell-proxy-");
    reveal_strlit("openshell-tls-");
    assert(container_name_text(a)[10] == 's');
    assert(proxy_container_name_text(b)[10] == 'p');
    assert(volume_name_text(a)[10] == 's');
    assert(tls_volume_name_text(b)[10] == 't');
}

/// A short ID has at most 12 characters and is a prefix of the ID. It is its own
/// short ID, and an ID of at most 12 characters is its own.
pub proof fn law_short_id(id: Seq<char>)
    ensures
        short_id_text(id).len() <= 12,
        short_id_text(id).is_prefix_of(id),
        short_id_text(short_id_text(id)) == short_id_text(id),
        id.len() <= 12 ==> short_id_text(id) == id,
{
    assert(short_id_text(id) =~= id.subrange(0, short_id_text(id).len() as int));
}

/// Of what the user asks for, the template comes before the environment of the
/// spec, and that before the log level; nothing else is in the user's environment.
pub proof fn law_user_env_priority(sandbox: SandboxView, key: Seq<char>)
    ensures
        sandbox.template() matches Some(template) ==> template.environment.contains_key(key)
            ==> user_env(sandbox).contains_key(key) && user_env(sandbox)[key]
            == template.environment[key],
        sandbox.spec matches Some(spec) ==> spec.environment.contains_key(key) && !(
        sandbox.template() matches Some(template) && template.environment.contains_key(key))
            ==> user_env(sandbox).contains_key(key) && user_env(sandbox)[key]
            == spec.environment[key],
        sandbox.spec matches Some(spec) ==> !spec.environment.contains_key(key) && !(
        sandbox.template() matches Some(template) && template.environment.contains_key(key)) ==> (
        user_env(sandbox).contains_key(key) <==> key == "OPENSHELL_LOG_LEVEL"@
            && spec.log_level.len() > 0) && (user_env(sandbox).contains_key(key)
            ==> user_env(sandbox)[key] == spec.log_level),
        sandbox.spec is None ==> !user_env(sandbox).contains_key(key),
{
}

/// The names of the variables that the driver sets in a workload container.
pub open spec fn is_required_name(config: ConfigView, key: Seq<char>) -> bool {
    ||| key == "OPENSHELL_SANDBOX"@
    ||| key == "OPENSHELL_SANDBOX_ID"@
    ||| key == "OPENSHELL_ENDPOINT"@
    ||| key == "OPENSHELL_SSH_SOCKET_PATH"@
    ||| key == "OPENSHELL_SSH_HANDSHAKE_SKEW_SECS"@
    ||| key == "OPENSHELL_CONTAINER_IMAGE"@
    ||| key == "OPENSHELL_SANDBOX_COMMAND"@
    ||| config.tls_enabled() && (key == "OPENSHELL_TLS_CA"@ || key == "OPENSHELL_TLS_CERT"@ || key
        == "OPENSHELL_TLS_KEY"@)
}

/// No two of the names of required variables are alike, nor is any of them one of
/// the other names that the driver knows.
pub(crate) proof fn lemma_required_names(sandbox: SandboxView, config: ConfigView, image: Seq<char>)
    ensures
        forall|key: Seq<char>| #[trigger]
            required_env(sandbox, config, image).contains_key(key) <==> is_required_name(
                config,
                key,
            ),
        required_env(sandbox, config, image)["OPENSHELL_SANDBOX"@] == sandbox.name,
        required_env(sandbox, config, image)["OPENSHELL_SANDBOX_ID"@] == sandbox.id,
        required_env(sandbox, config, image)["OPENSHELL_ENDPOINT"@] == config.grpc_endpoint,
        required_env(sandbox, config, image)["OPENSHELL_SSH_SOCKET_PATH"@]
            == config.sandbox_ssh_socket_path,
        required_env(sandbox, config, image)["OPENSHELL_SSH_HANDSHAKE_SKEW_SECS"@] == decimal_text(
            config.ssh_handshake_skew_secs,
        ),
        required_env(sandbox, config, image)["OPENSHELL_CONTAINER_IMAGE"@] == image,
        required_env(sandbox, config, image)["OPENSHELL_SANDBOX_COMMAND"@] == "sleep infinity"@,
        config.tls_enabled() ==> required_env(sandbox, config, image)["OPENSHELL_TLS_CA"@]
            == TLS_CA_MOUNT_PATH@,
        config.tls_enabled() ==> required_env(sandbox, config, image)["OPENSHELL_TLS_CERT"@]
            == TLS_CERT_MOUNT_PATH@,
        config.tls_enabled() ==> required_env(sandbox, config, image)["OPENSHELL_TLS_KEY"@]
            == TLS_KEY_MOUNT_PATH@,
        !is_required_name(config, "OPENSHELL_MODE"@),
        !is_required_name(config, "GOOGLE_APPLICATION_CREDENTIALS"@),
        !is_required_name(config, "OPENSHELL_SSH_HANDSHAKE_SECRET"@),
        "OPENSHELL_MODE"@ != "GOOGLE_APPLICATION_CREDENTIALS"@,
        "OPENSHELL_MODE"@ != "OPENSHELL_SSH_HANDSHAKE_SECRET"@,
        "GOOGLE_APPLICATION_CREDENTIALS"@ != "OPENSHELL_SSH_HANDSHAKE_SECRET"@,
{
    reveal_strlit("OPENSHELL_SANDBOX");
    reveal_strlit("OPENSHELL_SANDBOX_ID");
    reveal_strlit("OPENSHELL_ENDPOINT");
    reveal_strlit("OPENSHELL_SSH_SOCKET_PATH");
    reveal_strlit("OPENSHELL_SSH_HANDSHAKE_SKEW_SECS");
    reveal_strlit("OPENSHELL_CONTAINER_IMAGE");
    reveal_strlit("OPENSHELL_SANDBOX_COMMAND");
    reveal_strlit("OPENSHELL_TLS_CA");
    reveal_strlit("OPENSHELL_TLS_CERT");
    reveal_strlit("OPENSHELL_TLS_KEY");
    reveal_strlit("OPENSHELL_MODE");
    reveal_strlit("GOOGLE_APPLICATION_CREDENTIALS");
    reveal_strlit("OPENSHELL_SSH_HANDSHAKE_SECRET");
    assert("OPENSHELL_SANDBOX"@.len() == 17);
    assert("OPENSHELL_SANDBOX_ID"@.len() == 20);
    assert("OPENSHELL_ENDPOINT"@.len() == 18);
    assert("OPENSHELL_SSH_SOCKET_PATH"@.len() == 25);
    assert("OPENSHELL_SSH_HANDSHAKE_SKEW_SECS"@.len() == 33);
    assert("OPENSHELL_CONTAINER_IMAGE"@.len() == 25);
    assert("OPENSHELL_SANDBOX_COMMAND"@.len() == 25);
    assert("OPENSHELL_TLS_CA"@.len() == 16);
    assert("OPENSHELL_TLS_CERT"@.len() == 18);
    assert("OPENSHELL_TLS_KEY"@.len() == 17);
    assert("OPENSHELL_MODE"@.len() == 14);
    assert("GOOGLE_APPLICATION_CREDENTIALS"@.len() == 30);
    assert("OPENSHELL_SSH_HANDSHAKE_SECRET"@.len() == 30);
    assert("OPENSHELL_SANDBOX"@[10] == 'S' && "OPENSHELL_TLS_KEY"@[10] == 'T');
    assert("OPENSHELL_ENDPOINT"@[10] == 'E' && "OPENSHELL_TLS_CERT"@[10] == 'T');
    assert("OPENSHELL_SSH_SOCKET_PATH"@[11] == 'S');
    assert("OPENSHELL_CONTAINER_IMAGE"@[11] == 'O');
    assert("OPENSHELL_SANDBOX_COMMAND"@[11] == 'A');
    assert("GOOGLE_APPLICATION_CREDENTIALS"@[0] == 'G');
    assert("OPENSHELL_SSH_HANDSHAKE_SECRET"@[0] == 'O');
}

/// In a nested container the required variables win over whatever the user asked
/// for, and so does the mode.
pub proof fn law_nested_required_env_wins(sandbox: SandboxView, config: ConfigView)
    ensures
        holds_all(
            nested_env(sandbox, config),
            required_env(sandbox, config, image_text(sandbox, config)),
        ),
        nested_env(sandbox, config).contains_key("OPENSHELL_MODE"@),
        nested_env(sandbox, config)["OPENSHELL_MODE"@] == "nested"@,
{
    lemma_required_names(sandbox, config, image_text(sandbox, config));
}

/// The names of the variables that route the agent's traffic through the proxy.
pub open spec fn is_sidecar_name(key: Seq<char>) -> bool {
    ||| key == "OPENSHELL_PROXY_MODE"@
    ||| key == "OPENSHELL_ENDPOINT"@
    ||| key == "HTTP_PROXY"@
    ||| key == "HTTPS_PROXY"@
    ||| key == "NO_PROXY"@
    ||| key == "no_proxy"@
    ||| key == "SSL_CERT_FILE"@
    ||| key == "NODE_EXTRA_CA_CERTS"@
    ||| key == "CURL_CA_BUNDLE"@
    ||| key == "GIT_SSL_CAINFO"@
    ||| key == "REQUESTS_CA_BUNDLE"@
    ||| key == "GIT_SSH_COMMAND"@
}

/// The endpoint is the only required variable that the proxy replaces.
pub(crate) proof fn lemma_sidecar_names(config: ConfigView, proxy_ip: Seq<char>)
    ensures
        forall|key: Seq<char>| #[trigger]
            sidecar_env(proxy_ip).contains_key(key) <==> is_sidecar_name(key),
        forall|key: Seq<char>| #[trigger]
            is_sidecar_name(key) && is_required_name(config, key) ==> key == "OPENSHELL_ENDPOINT"@,
        !is_sidecar_name("OPENSHELL_SSH_HANDSHAKE_SECRET"@),
        !is_sidecar_name("OPENSHELL_TLS_CA"@),
        !is_sidecar_name("OPENSHELL_TLS_CERT"@),
        !is_sidecar_name("OPENSHELL_TLS_KEY"@),
        sidecar_env(proxy_ip)["OPENSHELL_ENDPOINT"@] == "http://"@ + proxy_ip + ":8081"@,
        sidecar_env(proxy_ip)["HTTP_PROXY"@] == "http://"@ + proxy_ip + ":3128"@,
        sidecar_env(proxy_ip)["HTTPS_PROXY"@] == "http://"@ + proxy_ip + ":3128"@,
        sidecar_env(proxy_ip)["NO_PROXY"@] == "127.0.0.1,localhost,::1,"@ + proxy_ip,
        sidecar_env(proxy_ip)["no_proxy"@] == "127.0.0.1,localhost,::1,"@ + proxy_ip,
        sidecar_env(proxy_ip)["OPENSHELL_PROXY_MODE"@] == "sidecar"@,
        sidecar_env(proxy_ip)["SSL_CERT_FILE"@] == "/openshell-tls/ca-bundle.pem"@,
        sidecar_env(proxy_ip)["CURL_CA_BUNDLE"@] == "/openshell-tls/ca-bundle.pem"@,
        sidecar_env(proxy_ip)["GIT_SSL_CAINFO"@] == "/openshell-tls/ca-bundle.pem"@,
        sidecar_env(proxy_ip)["REQUESTS_CA_BUNDLE"@] == "/openshell-tls/ca-bundle.pem"@,
        sidecar_env(proxy_ip)["NODE_EXTRA_CA_CERTS"@] == "/openshell-tls/openshell-ca.pem"@,
        sidecar_env(proxy_ip)["GIT_SSH_COMMAND"@] == "echo 'SSH disabled — use HTTPS' && exit 1"@,
{
    reveal_strlit("OPENSHELL_PROXY_MODE");
    reveal_strlit("OPENSHELL_ENDPOINT");
    reveal_strlit("HTTP_PROXY");
    reveal_strlit("HTTPS_PROXY");
    reveal_strlit("NO_PROXY");
    reveal_strlit("no_proxy");
    reveal_strlit("SSL_CERT_FILE");
    reveal_strlit("NODE_EXTRA_CA_CERTS");
    reveal_strlit("CURL_CA_BUNDLE");
    reveal_strlit("GIT_SSL_CAINFO");
    reveal_strlit("REQUESTS_CA_BUNDLE");
    reveal_strlit("GIT_SSH_COMMAND");
    reveal_strlit("OPENSHELL_SANDBOX");
    reveal_strlit("OPENSHELL_SANDBOX_ID");
    reveal_strlit("OPENSHELL_SSH_SOCKET_PATH");
    reveal_strlit("OPENSHELL_SSH_HANDSHAKE_SKEW_SECS");
    reveal_strlit("OPENSHELL_CONTAINER_IMAGE");
    reveal_strlit("OPENSHELL_SANDBOX_COMMAND");
    reveal_strlit("OPENSHELL_TLS_CA");
    reveal_strlit("OPENSHELL_TLS_CERT");
    reveal_strlit("OPENSHELL_TLS_KEY");
    reveal_strlit("OPENSHELL_SSH_HANDSHAKE_SECRET");
    assert("OPENSHELL_PROXY_MODE"@.len() == 20 && "OPENSHELL_PROXY_MODE"@[10] == 'P');
    assert("OPENSHELL_ENDPOINT"@.len() == 18 && "OPENSHELL_ENDPOINT"@[0] == 'O');
    assert("HTTP_PROXY"@.len() == 10);
    assert("HTTPS_PROXY"@.len() == 11);
    assert("NO_PROXY"@.len() == 8 && "NO_PROXY"@[0] == 'N');
    assert("no_proxy"@.len() == 8 && "no_proxy"@[0] == 'n');
    assert("SSL_CERT_FILE"@.len() == 13);
    assert("NODE_EXTRA_CA_CERTS"@.len() == 19);
    assert("CURL_CA_BUNDLE"@.len() == 14 && "CURL_CA_BUNDLE"@[0] == 'C');
    assert("GIT_SSL_CAINFO"@.len() == 14 && "GIT_SSL_CAINFO"@[0] == 'G');
    assert("REQUESTS_CA_BUNDLE"@.len() == 18 && "REQUESTS_CA_BUNDLE"@[0] == 'R');
    assert("GIT_SSH_COMMAND"@.len() == 15);
    assert("OPENSHELL_SANDBOX"@.len() == 17);
    assert("OPENSHELL_SANDBOX_ID"@.len() == 20 && "OPENSHELL_SANDBOX_ID"@[10] == 'S');
    assert("OPENSHELL_SSH_SOCKET_PATH"@.len() == 25);
    assert("OPENSHELL_SSH_HANDSHAKE_SKEW_SECS"@.len() == 33);
    assert("OPENSHELL_CONTAINER_IMAGE"@.len() == 25);
    assert("OPENSHELL_SANDBOX_COMMAND"@.len() == 25);
    assert("OPENSHELL_TLS_CA"@.len() == 16);
    assert("OPENSHELL_TLS_CERT"@.len() == 18 && "OPENSHELL_TLS_CERT"@[0] == 'O');
    assert("OPENSHELL_TLS_CERT"@[10] == 'T' && "OPENSHELL_ENDPOINT"@[10] == 'E');
    assert("OPENSHELL_TLS_KEY"@.len() == 17);
    assert("OPENSHELL_SSH_HANDSHAKE_SECRET"@.len() == 30);
}

/// In the agent, too, the required variables win over whatever the user asked for;
/// only the endpoint is another one: the proxy's.
pub proof fn law_agent_required_env_wins(
    sandbox: SandboxView,
    config: ConfigView,
    proxy_ip: Seq<char>,
)
    ensures
        holds_all(
            agent_env(sandbox, config, proxy_ip),
            required_env(sandbox, config, image_text(sandbox, config)).remove(
                "OPENSHELL_ENDPOINT"@,
            ),
        ),
        agent_env(sandbox, config, proxy_ip).contains_key("OPENSHELL_ENDPOINT"@),
        agent_env(sandbox, config, proxy_ip)["OPENSHELL_ENDPOINT"@] == "http://"@ + proxy_ip
            + ":8081"@,
{
    lemma_required_names(sandbox, config, image_text(sandbox, config));
    lemma_sidecar_names(config, proxy_ip);
}

/// All of the agent's traffic is routed through the proxy, whatever the user asked
/// for; what goes to the proxy itself goes there directly.
pub proof fn law_agent_traffic_through_proxy(
    sandbox: SandboxView,
    config: ConfigView,
    proxy_ip: Seq<char>,
)
    ensures
        holds_all(agent_env(sandbox, config, proxy_ip), sidecar_env(proxy_ip)),
        agent_env(sandbox, config, proxy_ip)["HTTP_PROXY"@] == "http://"@ + proxy_ip + ":3128"@,
        agent_env(sandbox, config, proxy_ip)["HTTPS_PROXY"@] == "http://"@ + proxy_ip + ":3128"@,
        agent_env(sandbox, config, proxy_ip)["NO_PROXY"@] == "127.0.0.1,localhost,::1,"@ + proxy_ip,
        agent_env(sandbox, config, proxy_ip)["no_proxy"@] == "127.0.0.1,localhost,::1,"@ + proxy_ip,
{
    lemma_sidecar_names(config, proxy_ip);
}

/// What the user asks for reaches the workload, under every name that the driver
/// does not set.
pub proof fn law_user_env_reaches_workload(
    sandbox: SandboxView,
    config: ConfigView,
    proxy_ip: Seq<char>,
    key: Seq<char>,
)
    requires
        user_env(sandbox).contains_key(key),
        !is_required_name(config, key),
    ensures
        key != "OPENSHELL_MODE"@ ==> nested_env(sandbox, config).contains_key(key) && nested_env(
            sandbox,
            config,
        )[key] == user_env(sandbox)[key],
        !is_sidecar_name(key) ==> agent_env(sandbox, config, proxy_ip).contains_key(key)
            && agent_env(sandbox, config, proxy_ip)[key] == user_env(sandbox)[key],
{
    lemma_required_names(sandbox, config, image_text(sandbox, config));
    lemma_sidecar_names(config, proxy_ip);
}

/// A variable of the workload is the user's or the driver's: there is no other.
pub proof fn law_env_origin(
    sandbox: SandboxView,
    config: ConfigView,
    proxy_ip: Seq<char>,
    key: Seq<char>,
)
    ensures
        nested_env(sandbox, config).contains_key(key) <==> user_env(sandbox).contains_key(key)
            || is_required_name(config, key) || key == "OPENSHELL_MODE"@ || (
        config.adc_host_path is Some && key == "GOOGLE_APPLICATION_CREDENTIALS"@),
        agent_env(sandbox, config, proxy_ip).contains_key(key) <==> user_env(sandbox).contains_key(
            key,
        ) || is_required_name(config, key) || is_sidecar_name(key),
{
    lemma_required_names(sandbox, config, image_text(sandbox, config));
    lemma_sidecar_names(config, proxy_ip);
}

/// The SSH handshake secret is not among the variables that the driver sets in
/// plain text; every container has it from the Podman secret of its sandbox.
pub proof fn law_handshake_secret(
    sandbox: SandboxView,
    config: ConfigView,
    internal_network: Seq<char>,
    proxy_ip: Seq<char>,
    tls_volume: Seq<char>,
    dns_servers: Seq<Seq<char>>,
    selinux_enabled: bool,
)
    ensures
        ({
            let secret = "OPENSHELL_SSH_HANDSHAKE_SECRET"@;
            let nested = nested_container(sandbox, config, selinux_enabled);
            let proxy = proxy_container(sandbox, config, internal_network, dns_servers);
            let agent = agent_container(
                sandbox,
                config,
                internal_network,
                proxy_ip,
                tls_volume,
                selinux_enabled,
            );
            &&& nested.env.contains_key(secret) ==> user_env(sandbox).contains_key(secret)
            &&& agent.env.contains_key(secret) ==> user_env(sandbox).contains_key(secret)
            &&& !proxy.env.contains_key(secret)
            &&& nested.secret_env == map![secret => secret_name_text(sandbox.id)]
            &&& proxy.secret_env == nested.secret_env
            &&& agent.secret_env == nested.secret_env
        }),
{
    lemma_required_names(sandbox, config, image_text(sandbox, config));
    lemma_sidecar_names(config, proxy_ip);
    reveal_strlit("OPENSHELL_SSH_HANDSHAKE_SECRET");
    reveal_strlit("OPENSHELL_LOG_LEVEL");
    assert("OPENSHELL_SSH_HANDSHAKE_SECRET"@.len() == 30);
    assert("OPENSHELL_LOG_LEVEL"@.len() == 19);
}

/// The log level that the user asked for; empty where there is none.
pub open spec fn log_level(sandbox: SandboxView) -> Seq<char> {
    match sandbox.spec {
        Some(spec) => spec.log_level,
        None => Seq::empty(),
    }
}

/// Of what the user asks for, the proxy's environment has the log level only.
pub proof fn law_proxy_env_without_user(a: SandboxView, b: SandboxView, config: ConfigView)
    requires
        a.id == b.id,
        a.name == b.name,
        log_level(a) == log_level(b),
    ensures
        proxy_env(a, config) == proxy_env(b, config),
{
}

/// The proxy connects to the gateway itself, in proxy mode, whatever the log level
/// is.
pub proof fn law_proxy_env(sandbox: SandboxView, config: ConfigView)
    ensures
        proxy_env(sandbox, config)["OPENSHELL_MODE"@] == "proxy"@,
        proxy_env(sandbox, config)["OPENSHELL_ENDPOINT"@] == config.grpc_endpoint,
        proxy_env(sandbox, config)["OPENSHELL_SANDBOX_ID"@] == sandbox.id,
        proxy_env(sandbox, config)["OPENSHELL_SANDBOX"@] == sandbox.name,
        log_level(sandbox).len() > 0 <==> proxy_env(sandbox, config).contains_key(
            "OPENSHELL_LOG_LEVEL"@,
        ),
        log_level(sandbox).len() > 0 ==> proxy_env(sandbox, config)["OPENSHELL_LOG_LEVEL"@]
            == log_level(sandbox),
{
    reveal_strlit("OPENSHELL_MODE");
    reveal_strlit("OPENSHELL_ENDPOINT");
    reveal_strlit("OPENSHELL_SANDBOX_ID");
    reveal_strlit("OPENSHELL_SANDBOX");
    reveal_strlit("OPENSHELL_SSH_HANDSHAKE_SKEW_SECS");
    reveal_strlit("OPENSHELL_LOG_LEVEL");
    assert("OPENSHELL_MODE"@.len() == 14);
    assert("OPENSHELL_ENDPOINT"@.len() == 18);
    assert("OPENSHELL_SANDBOX_ID"@.len() == 20);
    assert("OPENSHELL_SANDBOX"@.len() == 17);
    assert("OPENSHELL_SSH_HANDSHAKE_SKEW_SECS"@.len() == 33);
    assert("OPENSHELL_LOG_LEVEL"@.len() == 19);
}

/// The names of the labels that the driver finds its containers by.
pub open spec fn is_managed_name(key: Seq<char>) -> bool {
    ||| key == LABEL_SANDBOX_ID@
    ||| key == LABEL_SANDBOX_NAME@
    ||| key == LABEL_SANDBOX_NAMESPACE@
    ||| key == LABEL_MANAGED@
}

pub(crate) proof fn lemma_label_names(sandbox: SandboxView)
    ensures
        forall|key: Seq<char>| #[trigger]
            managed_labels(sandbox).contains_key(key) <==> is_managed_name(key),
        managed_labels(sandbox)[LABEL_SANDBOX_ID@] == sandbox.id,
        managed_labels(sandbox)[LABEL_SANDBOX_NAME@] == sandbox.name,
        managed_labels(sandbox)[LABEL_SANDBOX_NAMESPACE@] == sandbox.namespace,
        managed_labels(sandbox)[LABEL_MANAGED@] == "true"@,
        !is_managed_name(LABEL_ROLE@),
{
    reveal_strlit("openshell.sandbox-id");
    reveal_strlit("openshell.sandbox-name");
    reveal_strlit("openshell.sandbox-namespace");
    reveal_strlit("openshell.managed");
    reveal_strlit("openshell.role");
    assert("openshell.sandbox-id"@.len() == 20);
    assert("openshell.sandbox-name"@.len() == 22);
    assert("openshell.sandbox-namespace"@.len() == 27);
    assert("openshell.managed"@.len() == 17);
    assert("openshell.role"@.len() == 14);
}

/// The managed labels and the role win over the labels of the template, in every
/// container; the other labels of the template stay, and there are no more.
pub proof fn law_labels(
    sandbox: SandboxView,
    config: ConfigView,
    internal_network: Seq<char>,
    proxy_ip: Seq<char>,
    tls_volume: Seq<char>,
    dns_servers: Seq<Seq<char>>,
    selinux_enabled: bool,
    key: Seq<char>,
)
    ensures
        ({
            let user = user_labels(sandbox);
            let nested = nested_container(sandbox, config, selinux_enabled).labels;
            let proxy = proxy_container(sandbox, config, internal_network, dns_servers).labels;
            let agent = agent_container(
                sandbox,
                config,
                internal_network,
                proxy_ip,
                tls_volume,
                selinux_enabled,
            ).labels;
            &&& holds_all(nested, managed_labels(sandbox))
            &&& holds_all(proxy, managed_labels(sandbox))
            &&& holds_all(agent, managed_labels(sandbox))
            &&& proxy.contains_key(LABEL_ROLE@) && proxy[LABEL_ROLE@] == ROLE_PROXY@
            &&& agent.contains_key(LABEL_ROLE@) && agent[LABEL_ROLE@] == ROLE_AGENT@
            &&& user.contains_key(key) && !is_managed_name(key) ==> nested.contains_key(key)
                && nested[key] == user[key]
            &&& user.contains_key(key) && !is_managed_name(key) && key != LABEL_ROLE@
                ==> proxy.contains_key(key) && proxy[key] == user[key] && agent.contains_key(key)
                && agent[key] == user[key]
            &&& nested.contains_key(key) ==> user.contains_key(key) || is_managed_name(key)
            &&& proxy.contains_key(key) || agent.contains_key(key) ==> user.contains_key(key)
                || is_managed_name(key) || key == LABEL_ROLE@
        }),
        managed_labels(sandbox)[LABEL_SANDBOX_ID@] == sandbox.id,
        managed_labels(sandbox)[LABEL_SANDBOX_NAME@] == sandbox.name,
        managed_labels(sandbox)[LABEL_SANDBOX_NAMESPACE@] == sandbox.namespace,
        managed_labels(sandbox)[LABEL_MANAGED@] == "true"@,
{
    lemma_label_names(sandbox);
}

/// Agent and proxy are attached to the internal network and to no other. The proxy
/// publishes no port; the other containers publish the SSH port, on whatever port
/// of the host is free.
pub proof fn law_isolation(
    sandbox: SandboxView,
    config: ConfigView,
    internal_network: Seq<char>,
    proxy_ip: Seq<char>,
    tls_volume: Seq<char>,
    dns_servers: Seq<Seq<char>>,
    selinux_enabled: bool,
    network: Seq<char>,
)
    ensures
        ({
            let nested = nested_container(sandbox, config, selinux_enabled);
            let proxy = proxy_container(sandbox, config, internal_network, dns_servers);
            let agent = agent_container(
                sandbox,
                config,
                internal_network,
                proxy_ip,
                tls_volume,
                selinux_enabled,
            );
            &&& proxy.networks.contains_key(network) <==> network == internal_network
            &&& agent.networks.contains_key(network) <==> network == internal_network
            &&& nested.networks.contains_key(network) <==> network == config.network_name
            &&& proxy.portmappings.len() == 0
            &&& agent.portmappings.len() == 1
            &&& agent.portmappings[0].host_port == 0
            &&& agent.portmappings[0].container_port == config.ssh_port
            &&& nested.portmappings == agent.portmappings
        }),
{
}

/// Proxy and agent cannot gain privileges. They have neither `SYS_PTRACE` nor
/// `DAC_READ_SEARCH` added, lose `NET_RAW` and `NET_BIND_SERVICE`, and keep what the
/// supervisor needs to become the sandbox user. A nested container keeps its
/// privilege transitions.
pub proof fn law_privileges(
    sandbox: SandboxView,
    config: ConfigView,
    internal_network: Seq<char>,
    proxy_ip: Seq<char>,
    tls_volume: Seq<char>,
    dns_servers: Seq<Seq<char>>,
    selinux_enabled: bool,
)
    ensures
        ({
            let nested = nested_container(sandbox, config, selinux_enabled);
            let proxy = proxy_container(sandbox, config, internal_network, dns_servers);
            let agent = agent_container(
                sandbox,
                config,
                internal_network,
                proxy_ip,
                tls_volume,
                selinux_enabled,
            );
            &&& proxy.no_new_privileges && agent.no_new_privileges && !nested.no_new_privileges
            &&& !proxy.cap_add.contains("SYS_PTRACE"@) && !agent.cap_add.contains("SYS_PTRACE"@)
            &&& !proxy.cap_add.contains("DAC_READ_SEARCH"@) && !agent.cap_add.contains("DAC_READ_SEARCH"@)
            &&& proxy.cap_drop == agent.cap_drop
            &&& agent.cap_drop.contains("NET_RAW"@) && nested.cap_drop.contains("NET_RAW"@)
            &&& agent.cap_drop.contains("NET_BIND_SERVICE"@)
            &&& nested.cap_drop.contains("NET_BIND_SERVICE"@)
            &&& !agent.cap_drop.contains("SETUID"@) && !nested.cap_drop.contains("SETUID"@)
            &&& !agent.cap_drop.contains("SETGID"@) && !nested.cap_drop.contains("SETGID"@)
            &&& !agent.cap_drop.contains("CHOWN"@) && !nested.cap_drop.contains("CHOWN"@)
            &&& !agent.cap_drop.contains("FOWNER"@) && !nested.cap_drop.contains("FOWNER"@)
            &&& !agent.cap_drop.contains("ALL"@) && !nested.cap_drop.contains("ALL"@)
        }),
{
    reveal_strlit("SYS_ADMIN");
    reveal_strlit("NET_ADMIN");
    reveal_strlit("SYSLOG");
    reveal_strlit("SYS_PTRACE");
    reveal_strlit("DAC_READ_SEARCH");
    reveal_strlit("DAC_OVERRIDE");
    reveal_strlit("FSETID");
    reveal_strlit("KILL");
    reveal_strlit("NET_BIND_SERVICE");
    reveal_strlit("NET_RAW");
    reveal_strlit("SETFCAP");
    reveal_strlit("SETPCAP");
    reveal_strlit("SYS_CHROOT");
    reveal_strlit("SETUID");
    reveal_strlit("SETGID");
    reveal_strlit("CHOWN");
    reveal_strlit("FOWNER");
    reveal_strlit("ALL");
    assert("SYS_ADMIN"@.len() == 9 && "NET_ADMIN"@.len() == 9 && "SYSLOG"@.len() == 6);
    assert("SYS_PTRACE"@.len() == 10 && "DAC_READ_SEARCH"@.len() == 15);
    assert("DAC_OVERRIDE"@.len() == 12 && "KILL"@.len() == 4 && "NET_BIND_SERVICE"@.len() == 16);
    assert("NET_RAW"@.len() == 7 && "SETFCAP"@.len() == 7 && "SETPCAP"@.len() == 7);
    assert("SYS_CHROOT"@.len() == 10 && "ALL"@.len() == 3 && "CHOWN"@.len() == 5);
    assert("FSETID"@.len() == 6 && "FSETID"@[0] == 'F' && "FSETID"@[1] == 'S');
    assert("SETUID"@.len() == 6 && "SETUID"@[0] == 'S');
    assert("SETGID"@.len() == 6 && "SETGID"@[0] == 'S');
    assert("FOWNER"@.len() == 6 && "FOWNER"@[1] == 'O');
    let dropped = sidecar_cap_drop();
    assert(dropped[4] == "NET_RAW"@ && dropped[3] == "NET_BIND_SERVICE"@);
    let nested = nested_container(sandbox, config, selinux_enabled).cap_drop;
    assert(nested[1] == "NET_RAW"@ && nested[0] == "NET_BIND_SERVICE"@);
}

/// Proxy and agent run the same image. The proxy writes the TLS volume of the
/// sandbox that the agent, when given its name, can only read, and they mount it at
/// the same place. Their names differ.
pub proof fn law_sidecar_pair(
    sandbox: SandboxView,
    config: ConfigView,
    internal_network: Seq<char>,
    proxy_ip: Seq<char>,
    dns_servers: Seq<Seq<char>>,
    selinux_enabled: bool,
)
    ensures
        ({
            let tls_volume = tls_volume_name_text(sandbox.id);
            let proxy = proxy_container(sandbox, config, internal_network, dns_servers);
            let agent = agent_container(
                sandbox,
                config,
                internal_network,
                proxy_ip,
                tls_volume,
                selinux_enabled,
            );
            &&& proxy.image == agent.image
            &&& proxy.image_volumes == agent.image_volumes
            &&& proxy.entrypoint == agent.entrypoint
            &&& proxy.name != agent.name
            &&& proxy.volumes == seq![volume(tls_volume, TLS_SHARED_PATH@, "rw"@)]
            &&& agent.volumes == seq![
                volume(volume_name_text(sandbox.id), "/sandbox"@, "rw"@),
                volume(tls_volume, TLS_SHARED_PATH@, "ro"@),
            ]
            &&& agent.volumes[0].name != agent.volumes[1].name
        }),
{
    law_names_disjoint(sandbox.name, sandbox.name);
    law_names_disjoint(sandbox.id, sandbox.id);
}

/// A mount is a bind mount of a file of the host.
pub open spec fn is_bind(mount: MountView) -> bool {
    mount.kind == "bind"@
}

/// With all three parts of the TLS material configured, the workload's variables
/// name the places where they are mounted, read-only, and relabeled where SELinux
/// is enabled. With any part missing none is mounted.
pub proof fn law_tls_material(
    sandbox: SandboxView,
    config: ConfigView,
    internal_network: Seq<char>,
    proxy_ip: Seq<char>,
    tls_volume: Seq<char>,
    selinux_enabled: bool,
)
    ensures
        ({
            let agent = agent_container(
                sandbox,
                config,
                internal_network,
                proxy_ip,
                tls_volume,
                selinux_enabled,
            );
            let nested = nested_container(sandbox, config, selinux_enabled);
            let k = adc_mounts(config).len() as int;
            let options = bind_options(selinux_enabled);
            &&& nested.mounts.skip(k) == agent.mounts
            &&& agent.mounts[0] == netns_mount()
            &&& config.tls_enabled() ==> {
                &&& agent.mounts.len() == 4
                &&& agent.mounts[1] == bind_mount(
                    config.guest_tls_ca->Some_0,
                    agent.env["OPENSHELL_TLS_CA"@],
                    options,
                )
                &&& agent.mounts[2] == bind_mount(
                    config.guest_tls_cert->Some_0,
                    agent.env["OPENSHELL_TLS_CERT"@],
                    options,
                )
                &&& agent.mounts[3] == bind_mount(
                    config.guest_tls_key->Some_0,
                    agent.env["OPENSHELL_TLS_KEY"@],
                    options,
                )
                &&& nested.env["OPENSHELL_TLS_CA"@] == agent.env["OPENSHELL_TLS_CA"@]
                &&& nested.env["OPENSHELL_TLS_CERT"@] == agent.env["OPENSHELL_TLS_CERT"@]
                &&& nested.env["OPENSHELL_TLS_KEY"@] == agent.env["OPENSHELL_TLS_KEY"@]
            }
            &&& !config.tls_enabled() ==> agent.mounts == seq![netns_mount()]
            &&& options.contains("ro"@)
            &&& options.contains("z"@) <==> selinux_enabled
        }),
{
    lemma_required_names(sandbox, config, image_text(sandbox, config));
    lemma_sidecar_names(config, proxy_ip);
    let agent = agent_container(
        sandbox,
        config,
        internal_network,
        proxy_ip,
        tls_volume,
        selinux_enabled,
    );
    let nested = nested_container(sandbox, config, selinux_enabled);
    let k = adc_mounts(config).len() as int;
    assert(nested.mounts.skip(k) =~= agent.mounts);
    assert(!config.tls_enabled() ==> agent.mounts =~= seq![netns_mount()]);
    reveal_strlit("ro");
    reveal_strlit("rbind");
    reveal_strlit("z");
    assert("ro"@.len() == 2 && "rbind"@.len() == 5 && "z"@.len() == 1);
    let options = bind_options(selinux_enabled);
    assert(options[0] == "ro"@);
    if selinux_enabled {
        assert(options[2] == "z"@);
    }
}

/// No container but a nested one with credentials binds a file of the host that is
/// not TLS material; without TLS material and credentials none binds any.
pub proof fn law_no_other_binds(
    sandbox: SandboxView,
    config: ConfigView,
    internal_network: Seq<char>,
    proxy_ip: Seq<char>,
    tls_volume: Seq<char>,
    dns_servers: Seq<Seq<char>>,
    selinux_enabled: bool,
    i: int,
)
    ensures
        ({
            let agent = agent_container(
                sandbox,
                config,
                internal_network,
                proxy_ip,
                tls_volume,
                selinux_enabled,
            );
            let nested = nested_container(sandbox, config, selinux_enabled);
            let proxy = proxy_container(sandbox, config, internal_network, dns_servers);
            &&& proxy.mounts.len() == 0
            &&& 0 <= i < agent.mounts.len() && is_bind(agent.mounts[i]) ==> config.tls_enabled()
            &&& 0 <= i < nested.mounts.len() && is_bind(nested.mounts[i]) ==> config.tls_enabled()
                || config.adc_host_path is Some
        }),
{
    reveal_strlit("bind");
    reveal_strlit("tmpfs");
    assert("bind"@.len() == 4 && "tmpfs"@.len() == 5);
}

/// Configured credentials are mounted read-only in a nested container, which is
/// pointed to them unless the user points elsewhere. Where none are configured, no
/// variable points anywhere but for the user's.
pub proof fn law_credentials(sandbox: SandboxView, config: ConfigView, selinux_enabled: bool)
    ensures
        ({
            let nested = nested_container(sandbox, config, selinux_enabled);
            let user = user_env(sandbox);
            let name = "GOOGLE_APPLICATION_CREDENTIALS"@;
            &&& config.adc_host_path matches Some(path) ==> nested.mounts[0] == bind_mount(
                path,
                ADC_MOUNT_PATH@,
                seq!["ro"@, "rbind"@],
            ) && nested.env.contains_key(name)
            &&& user.contains_key(name) ==> nested.env.contains_key(name) && nested.env[name]
                == user[name]
            &&& config.adc_host_path is Some && !user.contains_key(name) ==> nested.env[name]
                == ADC_MOUNT_PATH@
            &&& config.adc_host_path is None && !user.contains_key(name)
                ==> !nested.env.contains_key(name)
        }),
{
    lemma_required_names(sandbox, config, image_text(sandbox, config));
}

/// A nested container has the device of its inner storage, whether or not a GPU is
/// requested. It has the GPUs if one is requested, and only then; so has the agent.
pub proof fn law_devices(sandbox: SandboxView)
    ensures
        nested_devices(sandbox).contains(LinuxDeviceView { path: "/dev/fuse"@ }),
        nested_devices(sandbox).contains(LinuxDeviceView { path: CDI_GPU_DEVICE_ALL@ })
            <==> sandbox.wants_gpu(),
        gpu_devices(sandbox) is Some <==> sandbox.wants_gpu(),
{
    reveal_strlit("/dev/fuse");
    reveal_strlit("nvidia.com/gpu=all");
    assert("/dev/fuse"@.len() == 9 && "nvidia.com/gpu=all"@.len() == 18);
    let devices = nested_devices(sandbox);
    assert(devices.last() == (LinuxDeviceView { path: "/dev/fuse"@ }));
    if sandbox.wants_gpu() {
        assert(devices[0] == (LinuxDeviceView { path: CDI_GPU_DEVICE_ALL@ }));
    }
}

/// No container has a CPU quota of zero, and every quota is for the same period.
pub proof fn law_cpu_limits(
    sandbox: SandboxView,
    config: ConfigView,
    internal_network: Seq<char>,
    proxy_ip: Seq<char>,
    tls_volume: Seq<char>,
    dns_servers: Seq<Seq<char>>,
    selinux_enabled: bool,
)
    ensures
        ({
            let nested = nested_container(sandbox, config, selinux_enabled).resource_limits;
            let proxy = proxy_container(
                sandbox,
                config,
                internal_network,
                dns_servers,
            ).resource_limits;
            let agent = agent_container(
                sandbox,
                config,
                internal_network,
                proxy_ip,
                tls_volume,
                selinux_enabled,
            ).resource_limits;
            &&& nested == agent
            &&& agent.cpu.quota > 0 && proxy.cpu.quota > 0
            &&& agent.cpu.period == PERIOD_MICROS && proxy.cpu.period == PERIOD_MICROS
        }),
{
    if let Some(resources) = sandbox.resources() {
        law_quota_not_zero(resources.cpu_limit);
    }
}

} // verus!
