//! Container descriptions.
use openshell_driver_podman::container::{
    build_agent_container_spec, build_container_spec, build_proxy_sidecar_spec, container_name,
    internal_network_name, proxy_container_name, secret_name, short_id, tls_volume_name,
    volume_name, LABEL_ROLE, ROLE_AGENT, ROLE_PROXY,
};
use openshell_driver_podman::sandbox::{
    DriverSandbox, DriverSandboxSpec, DriverSandboxTemplate, PodmanComputeConfig,
};
use openshell_driver_podman::string_map::StringMap;
use serde_json::Value;

fn test_sandbox(id: &str, name: &str) -> DriverSandbox {
    DriverSandbox {
        id: id.to_string(),
        name: name.to_string(),
        namespace: String::new(),
        spec: None,
    }
}

fn test_config() -> PodmanComputeConfig {
    PodmanComputeConfig {
        default_image: "test-image:latest".to_string(),
        supervisor_image: "openshell/supervisor:latest".to_string(),
        image_pull_policy: "missing".to_string(),
        grpc_endpoint: "http://localhost:50051".to_string(),
        network_name: "openshell".to_string(),
        sandbox_ssh_socket_path: "/run/openshell/test-ssh.sock".to_string(),
        ssh_port: 2222,
        ssh_handshake_skew_secs: 300,
        stop_timeout_secs: 10,
        guest_tls_ca: None,
        guest_tls_cert: None,
        guest_tls_key: None,
        adc_host_path: None,
    }
}

/// A sandbox for inner containers.
fn test_nested_sandbox(id: &str, name: &str) -> DriverSandbox {
    let mut sandbox = test_sandbox(id, name);
    sandbox.spec = Some(DriverSandboxSpec {
        template: Some(DriverSandboxTemplate {
            mode: 2, // SANDBOX_MODE_NESTED
            ..Default::default()
        }),
        ..Default::default()
    });
    sandbox
}

#[test]
fn container_name_is_prefixed() {
    assert_eq!(container_name("my-sandbox"), "openshell-sandbox-my-sandbox");
}

#[test]
fn proxy_container_name_is_prefixed() {
    assert_eq!(
        proxy_container_name("my-sandbox"),
        "openshell-proxy-my-sandbox"
    );
}

#[test]
fn volume_name_uses_id() {
    assert_eq!(
        volume_name("abc-123"),
        "openshell-sandbox-abc-123-workspace"
    );
}

#[test]
fn tls_volume_name_uses_id() {
    assert_eq!(tls_volume_name("abc-123"), "openshell-tls-abc-123");
}

#[test]
fn internal_network_name_uses_id() {
    assert_eq!(
        internal_network_name("abc-123"),
        "openshell-sbx-abc-123"
    );
}

#[test]
fn secret_name_uses_id() {
    assert_eq!(secret_name("abc-123"), "openshell-handshake-abc-123");
}

#[test]
fn short_id_truncates() {
    assert_eq!(short_id("abc123def456789"), "abc123def456");
    assert_eq!(short_id("short"), "short");
}

// --- Proxy sidecar spec tests ---

#[test]
fn proxy_spec_has_minimal_capabilities() {
    let sandbox = test_sandbox("test-id", "test-name");
    let config = test_config();
    let spec = build_proxy_sidecar_spec(&sandbox, &config, "openshell-sbx-test-id", &[]);

    let added: Vec<&str> = spec["cap_add"]
        .as_array()
        .expect("cap_add should be an array")
        .iter()
        .filter_map(|v| v.as_str())
        .collect();
    assert!(added.contains(&"SYS_ADMIN"), "proxy missing SYS_ADMIN");
    assert!(added.contains(&"NET_ADMIN"), "proxy missing NET_ADMIN");
    // Proxy must NOT have SYS_PTRACE or DAC_READ_SEARCH.
    assert!(
        !added.contains(&"SYS_PTRACE"),
        "proxy must not have SYS_PTRACE"
    );
    assert!(
        !added.contains(&"DAC_READ_SEARCH"),
        "proxy must not have DAC_READ_SEARCH"
    );
}

#[test]
fn proxy_spec_uses_secret_env() {
    let sandbox = test_sandbox("test-id", "test-name");
    let config = test_config();
    let spec = build_proxy_sidecar_spec(&sandbox, &config, "openshell-sbx-test-id", &[]);

    // Secret must NOT appear in plaintext env.
    let env_map = spec["env"].as_object().expect("env should be an object");
    assert!(
        !env_map.contains_key("OPENSHELL_SSH_HANDSHAKE_SECRET"),
        "handshake secret should not be in plaintext env"
    );

    let secret_env = spec["secret_env"]
        .as_object()
        .expect("secret_env should be an object");
    assert!(
        secret_env.contains_key("OPENSHELL_SSH_HANDSHAKE_SECRET"),
        "proxy secret_env should map OPENSHELL_SSH_HANDSHAKE_SECRET"
    );
    assert_eq!(
        secret_env["OPENSHELL_SSH_HANDSHAKE_SECRET"].as_str(),
        Some("openshell-handshake-test-id"),
    );
}

#[test]
fn proxy_spec_has_role_label() {
    let sandbox = test_sandbox("test-id", "test-name");
    let config = test_config();
    let spec = build_proxy_sidecar_spec(&sandbox, &config, "openshell-sbx-test-id", &[]);

    let labels = spec["labels"]
        .as_object()
        .expect("labels should be an object");
    assert_eq!(
        labels.get(LABEL_ROLE).and_then(|v| v.as_str()),
        Some(ROLE_PROXY),
        "proxy should have role=proxy label"
    );
}

#[test]
fn proxy_spec_has_tls_volume_rw() {
    let sandbox = test_sandbox("test-id", "test-name");
    let config = test_config();
    let spec = build_proxy_sidecar_spec(&sandbox, &config, "openshell-sbx-test-id", &[]);

    let volumes = spec["volumes"]
        .as_array()
        .expect("volumes should be an array");
    let tls_vol = volumes
        .iter()
        .find(|v| v["dest"].as_str() == Some("/openshell-tls"))
        .expect("proxy should mount TLS volume");
    let options: Vec<&str> = tls_vol["options"]
        .as_array()
        .unwrap()
        .iter()
        .filter_map(|v| v.as_str())
        .collect();
    assert!(options.contains(&"rw"), "proxy TLS volume should be rw");
}

#[test]
fn proxy_spec_sets_dns_servers() {
    let sandbox = test_sandbox("test-id", "test-name");
    let config = test_config();
    let dns = vec!["8.8.8.8".to_string(), "1.1.1.1".to_string()];
    let spec = build_proxy_sidecar_spec(&sandbox, &config, "openshell-sbx-test-id", &dns);

    let dns_server: Vec<&str> = spec["dns_server"]
        .as_array()
        .expect("dns_server should be an array")
        .iter()
        .filter_map(|v| v.as_str())
        .collect();
    assert_eq!(dns_server, vec!["8.8.8.8", "1.1.1.1"]);
}

#[test]
fn proxy_spec_has_no_port_mappings() {
    let sandbox = test_sandbox("test-id", "test-name");
    let config = test_config();
    let spec = build_proxy_sidecar_spec(&sandbox, &config, "openshell-sbx-test-id", &[]);

    assert!(
        spec.get("portmappings").is_none()
            || spec["portmappings"]
                .as_array()
                .is_none_or(|a| a.is_empty()),
        "proxy should not expose any ports"
    );
}

#[test]
fn proxy_spec_healthcheck_checks_tls_ready() {
    let sandbox = test_sandbox("test-id", "test-name");
    let config = test_config();
    let spec = build_proxy_sidecar_spec(&sandbox, &config, "openshell-sbx-test-id", &[]);

    let test_cmd = spec["healthconfig"]["test"]
        .as_array()
        .expect("healthcheck test should be an array");
    let command = test_cmd
        .get(1)
        .and_then(|v| v.as_str())
        .expect("healthcheck should include shell command");
    assert!(
        command.contains("/openshell-tls/.ready"),
        "proxy healthcheck should check for TLS ready sentinel"
    );
}

// --- Agent container spec tests ---

#[test]
fn agent_spec_has_reduced_capabilities() {
    let sandbox = test_sandbox("test-id", "test-name");
    let config = test_config();
    let spec = build_agent_container_spec(
        &sandbox,
        &config,
        "openshell-sbx-test-id",
        "10.89.0.2",
        "openshell-tls-test-id",
        false,
    );

    let added: Vec<&str> = spec["cap_add"]
        .as_array()
        .expect("cap_add should be an array")
        .iter()
        .filter_map(|v| v.as_str())
        .collect();
    assert!(added.contains(&"SYS_ADMIN"), "agent missing SYS_ADMIN");
    assert!(added.contains(&"NET_ADMIN"), "agent missing NET_ADMIN");
    assert!(added.contains(&"SYSLOG"), "agent missing SYSLOG");
    // Agent must NOT have SYS_PTRACE or DAC_READ_SEARCH in sidecar mode.
    assert!(
        !added.contains(&"SYS_PTRACE"),
        "agent must not have SYS_PTRACE in sidecar mode"
    );
    assert!(
        !added.contains(&"DAC_READ_SEARCH"),
        "agent must not have DAC_READ_SEARCH in sidecar mode"
    );

    // Verify essential caps are not dropped.
    let dropped: Vec<&str> = spec["cap_drop"]
        .as_array()
        .expect("cap_drop should be an array")
        .iter()
        .filter_map(|v| v.as_str())
        .collect();
    assert!(!dropped.contains(&"SETUID"), "SETUID must not be dropped");
    assert!(!dropped.contains(&"SETGID"), "SETGID must not be dropped");
    assert!(!dropped.contains(&"CHOWN"), "CHOWN must not be dropped");
    assert!(!dropped.contains(&"FOWNER"), "FOWNER must not be dropped");
    assert!(
        !dropped.contains(&"ALL"),
        "must not use cap_drop:ALL in rootless Podman"
    );
}

#[test]
fn agent_spec_uses_secret_env_not_plaintext() {
    let sandbox = test_sandbox("test-id", "test-name");
    let config = test_config();
    let spec = build_agent_container_spec(
        &sandbox,
        &config,
        "openshell-sbx-test-id",
        "10.89.0.2",
        "openshell-tls-test-id",
        false,
    );

    let env_map = spec["env"].as_object().expect("env should be an object");
    assert!(
        !env_map.contains_key("OPENSHELL_SSH_HANDSHAKE_SECRET"),
        "handshake secret should not be in plaintext env"
    );

    let secret_env = spec["secret_env"]
        .as_object()
        .expect("secret_env should be an object");
    assert!(
        secret_env.contains_key("OPENSHELL_SSH_HANDSHAKE_SECRET"),
        "agent secret_env should map OPENSHELL_SSH_HANDSHAKE_SECRET"
    );
    assert_eq!(
        secret_env["OPENSHELL_SSH_HANDSHAKE_SECRET"].as_str(),
        Some("openshell-handshake-test-id"),
    );
}

#[test]
fn agent_spec_sets_sandbox_name_in_env() {
    let sandbox = test_sandbox("test-id", "my-sandbox");
    let config = test_config();
    let spec = build_agent_container_spec(
        &sandbox,
        &config,
        "openshell-sbx-test-id",
        "10.89.0.2",
        "openshell-tls-test-id",
        false,
    );

    let env_map = spec["env"].as_object().expect("env should be an object");
    assert_eq!(
        env_map.get("OPENSHELL_SANDBOX").and_then(|v| v.as_str()),
        Some("my-sandbox"),
    );
}

#[test]
fn agent_spec_sets_ssh_socket_path_in_env() {
    let sandbox = test_sandbox("test-id", "test-name");
    let config = test_config();
    let spec = build_agent_container_spec(
        &sandbox,
        &config,
        "openshell-sbx-test-id",
        "10.89.0.2",
        "openshell-tls-test-id",
        false,
    );

    let env_map = spec["env"].as_object().expect("env should be an object");
    assert_eq!(
        env_map
            .get("OPENSHELL_SSH_SOCKET_PATH")
            .and_then(|v| v.as_str()),
        Some("/run/openshell/test-ssh.sock"),
    );
}

#[test]
fn agent_spec_healthcheck_accepts_supervisor_socket() {
    let sandbox = test_sandbox("test-id", "test-name");
    let config = test_config();
    let spec = build_agent_container_spec(
        &sandbox,
        &config,
        "openshell-sbx-test-id",
        "10.89.0.2",
        "openshell-tls-test-id",
        false,
    );

    let healthcheck = spec["healthconfig"]["test"]
        .as_array()
        .expect("healthcheck test should be an array");
    let command = healthcheck
        .get(1)
        .and_then(|v| v.as_str())
        .expect("healthcheck should include shell command");
    assert!(
        command.contains("test -S /run/openshell/test-ssh.sock"),
        "healthcheck should consider the supervisor Unix socket ready"
    );
}

#[test]
fn agent_spec_required_vars_cannot_be_overridden() {
    let mut sandbox = test_sandbox("test-id", "legit-name");
    let mut env_overrides = StringMap::new();
    env_overrides.insert(
        "OPENSHELL_ENDPOINT".to_string(),
        "http://evil.example.com".to_string(),
    );
    env_overrides.insert("OPENSHELL_SANDBOX_ID".to_string(), "spoofed-id".to_string());
    env_overrides.insert(
        "OPENSHELL_SSH_SOCKET_PATH".to_string(),
        "/tmp/evil.sock".to_string(),
    );
    sandbox.spec = Some(DriverSandboxSpec {
        environment: env_overrides,
        template: Some(DriverSandboxTemplate::default()),
        ..Default::default()
    });

    let config = test_config();
    let spec = build_agent_container_spec(
        &sandbox,
        &config,
        "openshell-sbx-test-id",
        "10.89.0.2",
        "openshell-tls-test-id",
        false,
    );

    let env_map = spec["env"].as_object().expect("env should be an object");

    // OPENSHELL_ENDPOINT is overwritten by the sidecar proxy address.
    assert_eq!(
        env_map.get("OPENSHELL_ENDPOINT").and_then(|v| v.as_str()),
        Some("http://10.89.0.2:8081"),
        "OPENSHELL_ENDPOINT must point to proxy, not be overridden by user env"
    );
    assert_eq!(
        env_map.get("OPENSHELL_SANDBOX_ID").and_then(|v| v.as_str()),
        Some("test-id"),
        "OPENSHELL_SANDBOX_ID must not be overridden by user env"
    );
    assert_eq!(
        env_map
            .get("OPENSHELL_SSH_SOCKET_PATH")
            .and_then(|v| v.as_str()),
        Some("/run/openshell/test-ssh.sock"),
        "OPENSHELL_SSH_SOCKET_PATH must not be overridden by user env"
    );
}

#[test]
fn agent_spec_required_labels_cannot_be_overridden() {
    let mut sandbox = test_sandbox("real-id", "real-name");
    sandbox.namespace = "real-namespace".to_string();
    let mut label_overrides = StringMap::new();
    label_overrides.insert("openshell.sandbox-id".to_string(), "spoofed-id".to_string());
    label_overrides.insert(
        "openshell.sandbox-name".to_string(),
        "spoofed-name".to_string(),
    );
    label_overrides.insert(
        "openshell.sandbox-namespace".to_string(),
        "spoofed-namespace".to_string(),
    );
    sandbox.spec = Some(DriverSandboxSpec {
        template: Some(DriverSandboxTemplate {
            labels: label_overrides,
            ..Default::default()
        }),
        ..Default::default()
    });

    let config = test_config();
    let spec = build_agent_container_spec(
        &sandbox,
        &config,
        "openshell-sbx-real-id",
        "10.89.0.2",
        "openshell-tls-real-id",
        false,
    );

    let labels = spec["labels"]
        .as_object()
        .expect("labels should be an object");
    assert_eq!(
        labels.get("openshell.sandbox-id").and_then(|v| v.as_str()),
        Some("real-id"),
        "openshell.sandbox-id must not be overridden by template labels"
    );
    assert_eq!(
        labels
            .get("openshell.sandbox-name")
            .and_then(|v| v.as_str()),
        Some("real-name"),
        "openshell.sandbox-name must not be overridden by template labels"
    );
    assert_eq!(
        labels
            .get("openshell.sandbox-namespace")
            .and_then(|v| v.as_str()),
        Some("real-namespace"),
        "openshell.sandbox-namespace must not be overridden by template labels"
    );
}

#[test]
fn container_spec_injects_host_aliases() {
    let sandbox = test_nested_sandbox("test-id", "test-name");
    let config = test_config();
    let spec = build_container_spec(&sandbox, &config, false);

    let hostadd: Vec<&str> = spec["hostadd"]
        .as_array()
        .expect("hostadd should be an array")
        .iter()
        .filter_map(|v| v.as_str())
        .collect();

    assert!(
        hostadd.contains(&"host.containers.internal:host-gateway"),
        "missing Podman host alias"
    );
    assert!(
        hostadd.contains(&"host.openshell.internal:host-gateway"),
        "missing OpenShell stable host alias"
    );
    assert!(
        !hostadd.contains(&"host.docker.internal:host-gateway"),
        "Podman should not inject Docker's host alias"
    );
}

#[test]
fn agent_spec_has_role_label() {
    let sandbox = test_sandbox("test-id", "test-name");
    let config = test_config();
    let spec = build_agent_container_spec(
        &sandbox,
        &config,
        "openshell-sbx-test-id",
        "10.89.0.2",
        "openshell-tls-test-id",
        false,
    );

    let labels = spec["labels"]
        .as_object()
        .expect("labels should be an object");
    assert_eq!(
        labels.get(LABEL_ROLE).and_then(|v| v.as_str()),
        Some(ROLE_AGENT),
        "agent should have role=agent label"
    );
}

#[test]
fn agent_spec_has_proxy_env_vars() {
    let sandbox = test_sandbox("test-id", "test-name");
    let config = test_config();
    let spec = build_agent_container_spec(
        &sandbox,
        &config,
        "openshell-sbx-test-id",
        "10.89.0.2",
        "openshell-tls-test-id",
        false,
    );

    let env_map = spec["env"].as_object().expect("env should be an object");

    assert_eq!(
        env_map.get("HTTP_PROXY").and_then(|v| v.as_str()),
        Some("http://10.89.0.2:3128"),
        "HTTP_PROXY should point to proxy sidecar"
    );
    assert_eq!(
        env_map.get("HTTPS_PROXY").and_then(|v| v.as_str()),
        Some("http://10.89.0.2:3128"),
        "HTTPS_PROXY should point to proxy sidecar"
    );
    assert_eq!(
        env_map.get("NO_PROXY").and_then(|v| v.as_str()),
        Some("127.0.0.1,localhost,::1,10.89.0.2"),
        "NO_PROXY must include proxy IP to avoid double-proxying gRPC traffic"
    );
    assert_eq!(
        env_map.get("no_proxy").and_then(|v| v.as_str()),
        Some("127.0.0.1,localhost,::1,10.89.0.2"),
        "no_proxy must include proxy IP to avoid double-proxying gRPC traffic"
    );
    assert_eq!(
        env_map.get("OPENSHELL_PROXY_MODE").and_then(|v| v.as_str()),
        Some("sidecar"),
        "OPENSHELL_PROXY_MODE should be 'sidecar'"
    );
    assert_eq!(
        env_map.get("OPENSHELL_ENDPOINT").and_then(|v| v.as_str()),
        Some("http://10.89.0.2:8081"),
        "OPENSHELL_ENDPOINT should route through proxy"
    );
}

#[test]
fn agent_spec_has_ca_trust_env_vars() {
    let sandbox = test_sandbox("test-id", "test-name");
    let config = test_config();
    let spec = build_agent_container_spec(
        &sandbox,
        &config,
        "openshell-sbx-test-id",
        "10.89.0.2",
        "openshell-tls-test-id",
        false,
    );

    let env_map = spec["env"].as_object().expect("env should be an object");
    let ca_bundle = "/openshell-tls/ca-bundle.pem";
    let ca_cert = "/openshell-tls/openshell-ca.pem";
    // Bundle-based env vars should point to the combined CA bundle.
    for var in &["SSL_CERT_FILE", "CURL_CA_BUNDLE", "GIT_SSL_CAINFO", "REQUESTS_CA_BUNDLE"] {
        assert_eq!(
            env_map.get(*var).and_then(|v| v.as_str()),
            Some(ca_bundle),
            "{var} should point to {ca_bundle}"
        );
    }
    // Node.js needs just the proxy CA cert (not the full bundle).
    assert_eq!(
        env_map.get("NODE_EXTRA_CA_CERTS").and_then(|v| v.as_str()),
        Some(ca_cert),
        "NODE_EXTRA_CA_CERTS should point to {ca_cert}"
    );
}

#[test]
fn agent_spec_blocks_git_ssh() {
    let sandbox = test_sandbox("test-id", "test-name");
    let config = test_config();
    let spec = build_agent_container_spec(
        &sandbox,
        &config,
        "openshell-sbx-test-id",
        "10.89.0.2",
        "openshell-tls-test-id",
        false,
    );

    let env_map = spec["env"].as_object().expect("env should be an object");
    let git_ssh = env_map
        .get("GIT_SSH_COMMAND")
        .and_then(|v| v.as_str())
        .expect("GIT_SSH_COMMAND should be set");
    assert!(
        git_ssh.contains("exit 1"),
        "GIT_SSH_COMMAND should block SSH"
    );
}

#[test]
fn agent_spec_internal_network_only() {
    let sandbox = test_sandbox("test-id", "test-name");
    let config = test_config();
    let internal_net = "openshell-sbx-test-id";
    let spec = build_agent_container_spec(
        &sandbox,
        &config,
        internal_net,
        "10.89.0.2",
        "openshell-tls-test-id",
        false,
    );

    let networks = spec["networks"]
        .as_object()
        .expect("networks should be an object");
    assert!(
        networks.contains_key(internal_net),
        "agent should be on internal network"
    );
    assert_eq!(
        networks.len(),
        1,
        "agent should ONLY be on internal network (no bridge)"
    );
}

#[test]
fn agent_spec_has_tls_volume_ro() {
    let sandbox = test_sandbox("test-id", "test-name");
    let config = test_config();
    let tls_vol = "openshell-tls-test-id";
    let spec = build_agent_container_spec(
        &sandbox,
        &config,
        "openshell-sbx-test-id",
        "10.89.0.2",
        tls_vol,
        false,
    );

    let volumes = spec["volumes"]
        .as_array()
        .expect("volumes should be an array");
    let tls = volumes
        .iter()
        .find(|v| v["dest"].as_str() == Some("/openshell-tls"))
        .expect("agent should mount TLS volume");
    let options: Vec<&str> = tls["options"]
        .as_array()
        .unwrap()
        .iter()
        .filter_map(|v| v.as_str())
        .collect();
    assert!(options.contains(&"ro"), "agent TLS volume should be ro");
    assert_eq!(
        tls["name"].as_str(),
        Some(tls_vol),
        "TLS volume name should match"
    );
}

#[test]
fn agent_spec_includes_supervisor_image_volume() {
    let sandbox = test_sandbox("test-id", "test-name");
    let config = test_config();
    let spec = build_agent_container_spec(
        &sandbox,
        &config,
        "openshell-sbx-test-id",
        "10.89.0.2",
        "openshell-tls-test-id",
        false,
    );

    let image_volumes = spec["image_volumes"]
        .as_array()
        .expect("image_volumes should be an array");
    assert_eq!(
        image_volumes.len(),
        1,
        "should have exactly one image volume"
    );
    assert_eq!(
        image_volumes[0]["source"].as_str(),
        Some("openshell/supervisor:latest"),
    );
    assert_eq!(
        image_volumes[0]["destination"].as_str(),
        Some("/opt/openshell/bin"),
    );
    assert_eq!(image_volumes[0]["rw"].as_bool(), Some(false));
}

/// Helper to create a nested sandbox for test purposes.

#[test]
fn container_spec_includes_supervisor_image_volume() {
    let sandbox = test_nested_sandbox("test-id", "test-name");
    let config = test_config();
    let spec = build_container_spec(&sandbox, &config, false);

    let image_volumes = spec["image_volumes"]
        .as_array()
        .expect("image_volumes should be an array");
    assert_eq!(
        image_volumes.len(),
        1,
        "should have exactly one image volume"
    );

    let vol = &image_volumes[0];
    assert_eq!(
        vol["source"].as_str(),
        Some("openshell/supervisor:latest"),
        "image volume source should be the supervisor image"
    );
    assert_eq!(
        vol["destination"].as_str(),
        Some("/opt/openshell/bin"),
        "image volume destination should be /opt/openshell/bin"
    );
    assert_eq!(
        vol["rw"].as_bool(),
        Some(false),
        "image volume should be read-only"
    );
}

#[test]
fn container_spec_includes_tls_mounts_when_configured() {
    let sandbox = test_nested_sandbox("tls-id", "tls-name");
    let mut config = test_config();
    config.guest_tls_ca = Some("/host/ca.crt".to_string());
    config.guest_tls_cert = Some("/host/tls.crt".to_string());
    config.guest_tls_key = Some("/host/tls.key".to_string());

    for selinux_enabled in [false, true] {
        let spec = build_container_spec(&sandbox, &config, selinux_enabled);

        // Verify TLS env vars are set.
        let env_map = spec["env"].as_object().expect("env should be an object");
        assert_eq!(
            env_map.get("OPENSHELL_TLS_CA").and_then(|v| v.as_str()),
            Some("/etc/openshell/tls/client/ca.crt"),
        );
        assert_eq!(
            env_map.get("OPENSHELL_TLS_CERT").and_then(|v| v.as_str()),
            Some("/etc/openshell/tls/client/tls.crt"),
        );
        assert_eq!(
            env_map.get("OPENSHELL_TLS_KEY").and_then(|v| v.as_str()),
            Some("/etc/openshell/tls/client/tls.key"),
        );

        // Verify bind mounts exist for all three cert files.
        let mounts = spec["mounts"]
            .as_array()
            .expect("mounts should be an array");
        let bind_dests: Vec<&str> = mounts
            .iter()
            .filter(|m| m["type"].as_str() == Some("bind"))
            .filter_map(|m| m["destination"].as_str())
            .collect();
        assert!(
            bind_dests.contains(&"/etc/openshell/tls/client/ca.crt"),
            "should bind-mount CA cert"
        );
        assert!(
            bind_dests.contains(&"/etc/openshell/tls/client/tls.crt"),
            "should bind-mount client cert"
        );
        assert!(
            bind_dests.contains(&"/etc/openshell/tls/client/tls.key"),
            "should bind-mount client key"
        );

        // Verify SELinux relabel option is present iff SELinux is enabled.
        let tls_binds: Vec<&Value> = mounts
            .iter()
            .filter(|m| m["type"].as_str() == Some("bind"))
            .collect();
        let has_z = tls_binds.iter().all(|m| {
            m["options"]
                .as_array()
                .is_some_and(|opts| opts.iter().any(|o| o.as_str() == Some("z")))
        });
        assert_eq!(
            has_z,
            selinux_enabled,
            "TLS bind mounts should include 'z' option iff SELinux is enabled"
        );
    }
}

#[test]
fn container_spec_omits_tls_without_config() {
    let sandbox = test_nested_sandbox("notls-id", "notls-name");
    let config = test_config();

    let spec = build_container_spec(&sandbox, &config, false);

    let env_map = spec["env"].as_object().expect("env should be an object");
    assert!(
        env_map.get("OPENSHELL_TLS_CA").is_none(),
        "TLS env vars should not be set without TLS config"
    );

    let mounts = spec["mounts"]
        .as_array()
        .expect("mounts should be an array");
    let bind_count = mounts
        .iter()
        .filter(|m| m["type"].as_str() == Some("bind"))
        .count();
    assert_eq!(bind_count, 0, "no bind mounts without TLS config");
}

#[test]
fn nested_spec_includes_adc_bind_mount_when_configured() {
    let sandbox = test_nested_sandbox("adc-test-id", "adc-test");
    let config = PodmanComputeConfig {
        adc_host_path: Some("/host/adc.json".to_string()),
        ..test_config()
    };
    let spec = build_container_spec(&sandbox, &config, false);

    let mounts = spec["mounts"]
        .as_array()
        .expect("mounts should be an array");
    let adc_bind = mounts
        .iter()
        .find(|m| m["destination"].as_str() == Some("/run/gcloud/adc.json"));
    assert!(adc_bind.is_some(), "ADC bind mount should be present");

    let env_map = spec["env"].as_object().expect("env should be an object");
    assert_eq!(
        env_map
            .get("GOOGLE_APPLICATION_CREDENTIALS")
            .and_then(|v| v.as_str()),
        Some("/run/gcloud/adc.json"),
        "GOOGLE_APPLICATION_CREDENTIALS should be set for ADC"
    );
}
