//! Whole documents, and what holds of all of them.
use openshell_driver_podman::container::{
    build_agent_container_spec, build_container_spec, build_devices, build_env, build_labels,
    build_proxy_sidecar_spec, build_resource_limits, container_name, is_nested_mode,
    proxy_container_name, resolve_image, short_id, tls_volume_name, volume_name,
    CDI_GPU_DEVICE_ALL, LABEL_MANAGED, LABEL_MANAGED_FILTER, LABEL_SANDBOX_ID, LABEL_SANDBOX_NAME,
    LABEL_SANDBOX_NAMESPACE,
};
use openshell_driver_podman::container_spec::{
    ContainerSpec, CpuLimits, HealthConfig, MemoryLimits, Mount, NetNS, NetworkAttachment,
    ResourceLimits,
};
use openshell_driver_podman::json::ToJson;
use openshell_driver_podman::sandbox::{
    DriverSandbox, DriverSandboxSpec, DriverSandboxTemplate, PodmanComputeConfig,
    ResourceRequirements, SANDBOX_MODE_NESTED,
};
use openshell_driver_podman::string_map::StringMap;
use openshell_driver_podman::text::decimal;
use serde_json::Value;

fn names(entries: &[(&str, &str)]) -> StringMap<String> {
    let mut map = StringMap::new();
    for (key, value) in entries {
        map.insert(key.to_string(), value.to_string());
    }
    map
}

fn sandbox(spec: Option<DriverSandboxSpec>) -> DriverSandbox {
    DriverSandbox {
        id: "id-1".to_string(),
        name: "box".to_string(),
        namespace: "space".to_string(),
        spec,
    }
}

fn full_sandbox(mode: i32) -> DriverSandbox {
    sandbox(Some(DriverSandboxSpec {
        log_level: "debug".to_string(),
        environment: names(&[("A", "spec"), ("B", "spec")]),
        template: Some(DriverSandboxTemplate {
            image: "user/image:1".to_string(),
            environment: names(&[("B", "template"), ("OPENSHELL_MODE", "user")]),
            labels: names(&[("team", "x"), ("openshell.role", "user")]),
            resources: Some(ResourceRequirements {
                cpu_limit: "1500m".to_string(),
                memory_limit: "2Gi".to_string(),
            }),
            mode,
        }),
        gpu: true,
    }))
}

fn config() -> PodmanComputeConfig {
    PodmanComputeConfig {
        default_image: "default:1".to_string(),
        supervisor_image: "supervisor:1".to_string(),
        image_pull_policy: "newer".to_string(),
        grpc_endpoint: "https://gateway:8443".to_string(),
        network_name: "bridge-net".to_string(),
        sandbox_ssh_socket_path: "/run/ssh.sock".to_string(),
        ssh_port: 2222,
        ssh_handshake_skew_secs: 300,
        stop_timeout_secs: 15,
        guest_tls_ca: None,
        guest_tls_cert: None,
        guest_tls_key: None,
        adc_host_path: None,
    }
}

fn tls_config() -> PodmanComputeConfig {
    PodmanComputeConfig {
        guest_tls_ca: Some("/host/ca".to_string()),
        guest_tls_cert: Some("/host/cert".to_string()),
        guest_tls_key: Some("/host/key".to_string()),
        ..config()
    }
}

fn json(text: &str) -> Value {
    serde_json::from_str(text).expect("a JSON document")
}

fn agent(sandbox: &DriverSandbox, config: &PodmanComputeConfig, selinux_enabled: bool) -> Value {
    build_agent_container_spec(sandbox, config, "net", "10.0.0.2", "tls", selinux_enabled)
}

#[test]
fn nested_document() {
    let config = PodmanComputeConfig {
        adc_host_path: Some("/host/adc".to_string()),
        ..tls_config()
    };
    let expected = r#"{
        "name": "openshell-sandbox-box",
        "image": "user/image:1",
        "labels": {
            "openshell.managed": "true",
            "openshell.role": "user",
            "openshell.sandbox-id": "id-1",
            "openshell.sandbox-name": "box",
            "openshell.sandbox-namespace": "space",
            "team": "x"
        },
        "env": {
            "A": "spec",
            "B": "template",
            "GOOGLE_APPLICATION_CREDENTIALS": "/run/gcloud/adc.json",
            "OPENSHELL_CONTAINER_IMAGE": "user/image:1",
            "OPENSHELL_ENDPOINT": "https://gateway:8443",
            "OPENSHELL_LOG_LEVEL": "debug",
            "OPENSHELL_MODE": "nested",
            "OPENSHELL_SANDBOX": "box",
            "OPENSHELL_SANDBOX_COMMAND": "sleep infinity",
            "OPENSHELL_SANDBOX_ID": "id-1",
            "OPENSHELL_SSH_HANDSHAKE_SKEW_SECS": "300",
            "OPENSHELL_SSH_SOCKET_PATH": "/run/ssh.sock",
            "OPENSHELL_TLS_CA": "/etc/openshell/tls/client/ca.crt",
            "OPENSHELL_TLS_CERT": "/etc/openshell/tls/client/tls.crt",
            "OPENSHELL_TLS_KEY": "/etc/openshell/tls/client/tls.key"
        },
        "volumes": [
            {"name": "openshell-sandbox-id-1-workspace", "dest": "/sandbox", "options": ["rw"]}
        ],
        "image_volumes": [
            {"source": "supervisor:1", "destination": "/opt/openshell/bin", "rw": false}
        ],
        "hostname": "sandbox-box",
        "entrypoint": ["/opt/openshell/bin/openshell-sandbox"],
        "command": [],
        "user": "0:0",
        "cap_drop": ["NET_BIND_SERVICE", "NET_RAW"],
        "cap_add": ["SYS_ADMIN", "NET_ADMIN"],
        "no_new_privileges": false,
        "seccomp_profile_path": "unconfined",
        "image_pull_policy": "newer",
        "healthconfig": {
            "test": [
                "CMD-SHELL",
                "test -e /var/run/openshell-ssh-ready || test -S /run/ssh.sock || ss -tlnp | grep -q :2222"
            ],
            "Interval": 3000000000,
            "Timeout": 2000000000,
            "Retries": 10,
            "StartPeriod": 5000000000
        },
        "resource_limits": {
            "cpu": {"quota": 150000, "period": 100000},
            "memory": {"limit": 2147483648}
        },
        "secret_env": {"OPENSHELL_SSH_HANDSHAKE_SECRET": "openshell-handshake-id-1"},
        "stop_timeout": 15,
        "hostadd": [
            "host.containers.internal:host-gateway",
            "host.openshell.internal:host-gateway"
        ],
        "netns": {"nsmode": "bridge"},
        "networks": {"bridge-net": {}},
        "devices": [{"path": "nvidia.com/gpu=all"}, {"path": "/dev/fuse"}],
        "mounts": [
            {
                "type": "bind",
                "source": "/host/adc",
                "destination": "/run/gcloud/adc.json",
                "options": ["ro", "rbind"]
            },
            {
                "type": "tmpfs",
                "source": "tmpfs",
                "destination": "/run/netns",
                "options": ["rw", "nosuid", "nodev"]
            },
            {
                "type": "bind",
                "source": "/host/ca",
                "destination": "/etc/openshell/tls/client/ca.crt",
                "options": ["ro", "rbind", "z"]
            },
            {
                "type": "bind",
                "source": "/host/cert",
                "destination": "/etc/openshell/tls/client/tls.crt",
                "options": ["ro", "rbind", "z"]
            },
            {
                "type": "bind",
                "source": "/host/key",
                "destination": "/etc/openshell/tls/client/tls.key",
                "options": ["ro", "rbind", "z"]
            }
        ],
        "portmappings": [{"host_port": 0, "container_port": 2222, "protocol": "tcp"}],
        "unmask": ["/proc/*", "/sys/fs/cgroup"],
        "selinux_opts": ["disable"]
    }"#;
    assert_eq!(build_container_spec(&full_sandbox(2), &config, true), json(expected));
}

#[test]
fn proxy_document() {
    let expected = r#"{
        "name": "openshell-proxy-box",
        "image": "user/image:1",
        "labels": {
            "openshell.managed": "true",
            "openshell.role": "proxy",
            "openshell.sandbox-id": "id-1",
            "openshell.sandbox-name": "box",
            "openshell.sandbox-namespace": "space",
            "team": "x"
        },
        "env": {
            "OPENSHELL_ENDPOINT": "https://gateway:8443",
            "OPENSHELL_LOG_LEVEL": "debug",
            "OPENSHELL_MODE": "proxy",
            "OPENSHELL_SANDBOX": "box",
            "OPENSHELL_SANDBOX_ID": "id-1",
            "OPENSHELL_SSH_HANDSHAKE_SKEW_SECS": "300"
        },
        "volumes": [
            {"name": "openshell-tls-id-1", "dest": "/openshell-tls", "options": ["rw"]}
        ],
        "image_volumes": [
            {"source": "supervisor:1", "destination": "/opt/openshell/bin", "rw": false}
        ],
        "hostname": "proxy-box",
        "entrypoint": ["/opt/openshell/bin/openshell-sandbox"],
        "command": [],
        "user": "0:0",
        "cap_drop": [
            "DAC_OVERRIDE", "FSETID", "KILL", "NET_BIND_SERVICE", "NET_RAW", "SETFCAP", "SETPCAP",
            "SYS_CHROOT"
        ],
        "cap_add": ["SYS_ADMIN", "NET_ADMIN"],
        "no_new_privileges": true,
        "seccomp_profile_path": "unconfined",
        "image_pull_policy": "newer",
        "healthconfig": {
            "test": ["CMD-SHELL", "test -e /openshell-tls/.ready"],
            "Interval": 3000000000,
            "Timeout": 2000000000,
            "Retries": 10,
            "StartPeriod": 5000000000
        },
        "resource_limits": {
            "cpu": {"quota": 100000, "period": 100000},
            "memory": {"limit": 536870912}
        },
        "secret_env": {"OPENSHELL_SSH_HANDSHAKE_SECRET": "openshell-handshake-id-1"},
        "stop_timeout": 15,
        "hostadd": ["host.containers.internal:host-gateway"],
        "netns": {"nsmode": "bridge"},
        "networks": {"net": {}},
        "mounts": [],
        "portmappings": [],
        "dns_server": ["9.9.9.9", "1.1.1.1"]
    }"#;
    let servers = vec!["9.9.9.9".to_string(), "1.1.1.1".to_string()];
    assert_eq!(
        build_proxy_sidecar_spec(&full_sandbox(0), &tls_config(), "net", &servers),
        json(expected)
    );
}

#[test]
fn agent_document() {
    let expected = r#"{
        "name": "openshell-sandbox-box",
        "image": "user/image:1",
        "labels": {
            "openshell.managed": "true",
            "openshell.role": "agent",
            "openshell.sandbox-id": "id-1",
            "openshell.sandbox-name": "box",
            "openshell.sandbox-namespace": "space",
            "team": "x"
        },
        "env": {
            "A": "spec",
            "B": "template",
            "CURL_CA_BUNDLE": "/openshell-tls/ca-bundle.pem",
            "GIT_SSH_COMMAND": "echo 'SSH disabled — use HTTPS' && exit 1",
            "GIT_SSL_CAINFO": "/openshell-tls/ca-bundle.pem",
            "HTTPS_PROXY": "http://10.0.0.2:3128",
            "HTTP_PROXY": "http://10.0.0.2:3128",
            "NODE_EXTRA_CA_CERTS": "/openshell-tls/openshell-ca.pem",
            "NO_PROXY": "127.0.0.1,localhost,::1,10.0.0.2",
            "OPENSHELL_CONTAINER_IMAGE": "user/image:1",
            "OPENSHELL_ENDPOINT": "http://10.0.0.2:8081",
            "OPENSHELL_LOG_LEVEL": "debug",
            "OPENSHELL_MODE": "user",
            "OPENSHELL_PROXY_MODE": "sidecar",
            "OPENSHELL_SANDBOX": "box",
            "OPENSHELL_SANDBOX_COMMAND": "sleep infinity",
            "OPENSHELL_SANDBOX_ID": "id-1",
            "OPENSHELL_SSH_HANDSHAKE_SKEW_SECS": "300",
            "OPENSHELL_SSH_SOCKET_PATH": "/run/ssh.sock",
            "REQUESTS_CA_BUNDLE": "/openshell-tls/ca-bundle.pem",
            "SSL_CERT_FILE": "/openshell-tls/ca-bundle.pem",
            "no_proxy": "127.0.0.1,localhost,::1,10.0.0.2"
        },
        "volumes": [
            {"name": "openshell-sandbox-id-1-workspace", "dest": "/sandbox", "options": ["rw"]},
            {"name": "tls", "dest": "/openshell-tls", "options": ["ro"]}
        ],
        "image_volumes": [
            {"source": "supervisor:1", "destination": "/opt/openshell/bin", "rw": false}
        ],
        "hostname": "sandbox-box",
        "entrypoint": ["/opt/openshell/bin/openshell-sandbox"],
        "command": [],
        "user": "0:0",
        "cap_drop": [
            "DAC_OVERRIDE", "FSETID", "KILL", "NET_BIND_SERVICE", "NET_RAW", "SETFCAP", "SETPCAP",
            "SYS_CHROOT"
        ],
        "cap_add": ["SYS_ADMIN", "NET_ADMIN", "SYSLOG"],
        "no_new_privileges": true,
        "seccomp_profile_path": "unconfined",
        "image_pull_policy": "newer",
        "healthconfig": {
            "test": [
                "CMD-SHELL",
                "test -e /var/run/openshell-ssh-ready || test -S /run/ssh.sock || ss -tlnp | grep -q :2222"
            ],
            "Interval": 3000000000,
            "Timeout": 2000000000,
            "Retries": 10,
            "StartPeriod": 5000000000
        },
        "resource_limits": {
            "cpu": {"quota": 150000, "period": 100000},
            "memory": {"limit": 2147483648}
        },
        "secret_env": {"OPENSHELL_SSH_HANDSHAKE_SECRET": "openshell-handshake-id-1"},
        "stop_timeout": 15,
        "hostadd": [
            "host.containers.internal:host-gateway",
            "host.openshell.internal:host-gateway"
        ],
        "netns": {"nsmode": "bridge"},
        "networks": {"net": {}},
        "devices": [{"path": "nvidia.com/gpu=all"}],
        "mounts": [
            {
                "type": "tmpfs",
                "source": "tmpfs",
                "destination": "/run/netns",
                "options": ["rw", "nosuid", "nodev"]
            }
        ],
        "portmappings": [{"host_port": 0, "container_port": 2222, "protocol": "tcp"}]
    }"#;
    assert_eq!(agent(&full_sandbox(1), &config(), true), json(expected));
}

#[test]
fn members_without_content_are_left_out() {
    let spec = agent(&sandbox(None), &config(), false);
    for key in ["devices", "dns_server", "unmask", "selinux_opts"] {
        assert!(spec.get(key).is_none(), "{key}");
    }
    let spec = build_proxy_sidecar_spec(&sandbox(None), &config(), "net", &[]);
    for key in ["devices", "dns_server", "unmask", "selinux_opts"] {
        assert!(spec.get(key).is_none(), "{key}");
    }
    let mount = Mount {
        kind: "tmpfs".to_string(),
        source: "a".to_string(),
        destination: "b".to_string(),
        options: Vec::new(),
    };
    assert_eq!(
        mount.to_value(),
        json(r#"{"type": "tmpfs", "source": "a", "destination": "b"}"#)
    );
    let attachment = NetworkAttachment {
        static_ip: Some("10.0.0.7".to_string()),
    };
    assert_eq!(attachment.to_value(), json(r#"{"static_ip": "10.0.0.7"}"#));
    let attachment = NetworkAttachment { static_ip: None };
    assert_eq!(attachment.to_value(), json("{}"));
}

#[test]
fn documents_of_different_containers_differ() {
    let with_image = |image: &str| ContainerSpec {
        name: "n".to_string(),
        image: image.to_string(),
        labels: StringMap::new(),
        env: StringMap::new(),
        volumes: Vec::new(),
        image_volumes: Vec::new(),
        hostname: "h".to_string(),
        entrypoint: Vec::new(),
        command: vec!["c".to_string()],
        user: "u".to_string(),
        cap_drop: Vec::new(),
        cap_add: Vec::new(),
        no_new_privileges: true,
        seccomp_profile_path: "s".to_string(),
        image_pull_policy: "p".to_string(),
        healthconfig: HealthConfig {
            test: Vec::new(),
            interval: u64::MAX,
            timeout: 1,
            retries: 2,
            start_period: 3,
        },
        resource_limits: ResourceLimits {
            cpu: CpuLimits { quota: 4, period: 5 },
            memory: MemoryLimits { limit: 6 },
        },
        secret_env: StringMap::new(),
        stop_timeout: 7,
        hostadd: Vec::new(),
        netns: NetNS {
            nsmode: "m".to_string(),
        },
        networks: StringMap::new(),
        devices: Some(Vec::new()),
        mounts: Vec::new(),
        portmappings: Vec::new(),
        dns_server: Vec::new(),
        unmask: Vec::new(),
        selinux_opts: Vec::new(),
    };
    let a = with_image("a").to_value();
    let b = with_image("b").to_value();
    assert_ne!(a, b);
    assert_eq!(a["image"].as_str(), Some("a"));
    assert_eq!(a["healthconfig"]["Interval"].as_u64(), Some(u64::MAX));
    assert_eq!(a["healthconfig"]["Retries"].as_u64(), Some(2));
    assert_eq!(a["devices"].as_array().map(|devices| devices.len()), Some(0));
    assert_eq!(a["command"], json(r#"["c"]"#));
}

#[test]
fn driver_variables_win_in_a_nested_container() {
    let spoofed = names(&[
        ("OPENSHELL_SANDBOX", "x"),
        ("OPENSHELL_SANDBOX_ID", "x"),
        ("OPENSHELL_ENDPOINT", "x"),
        ("OPENSHELL_SSH_SOCKET_PATH", "x"),
        ("OPENSHELL_SSH_HANDSHAKE_SKEW_SECS", "x"),
        ("OPENSHELL_CONTAINER_IMAGE", "x"),
        ("OPENSHELL_SANDBOX_COMMAND", "x"),
        ("OPENSHELL_MODE", "x"),
        ("OPENSHELL_TLS_KEY", "x"),
        ("MINE", "x"),
    ]);
    let nested = sandbox(Some(DriverSandboxSpec {
        template: Some(DriverSandboxTemplate {
            environment: spoofed,
            mode: SANDBOX_MODE_NESTED,
            ..Default::default()
        }),
        ..Default::default()
    }));
    let spec = build_container_spec(&nested, &tls_config(), false);
    let env = spec["env"].as_object().expect("env should be an object");
    for (key, value) in env {
        assert_eq!(value.as_str() == Some("x"), key == "MINE", "{key}");
    }
    // Where no TLS material is mounted, its variables are the user's.
    let spec = build_container_spec(&nested, &config(), false);
    assert_eq!(spec["env"]["OPENSHELL_TLS_KEY"].as_str(), Some("x"));
}

#[test]
fn user_environment_by_priority() {
    let env = build_env(&full_sandbox(0), &config(), "image");
    assert_eq!(env.get("A").map(String::as_str), Some("spec"));
    assert_eq!(env.get("B").map(String::as_str), Some("template"));
    assert_eq!(env.get("OPENSHELL_LOG_LEVEL").map(String::as_str), Some("debug"));
    assert_eq!(env.get("OPENSHELL_CONTAINER_IMAGE").map(String::as_str), Some("image"));
    assert!(env.get("C").is_none());
    let leveled = sandbox(Some(DriverSandboxSpec {
        log_level: "debug".to_string(),
        environment: names(&[("OPENSHELL_LOG_LEVEL", "trace")]),
        ..Default::default()
    }));
    let env = build_env(&leveled, &config(), "image");
    assert_eq!(env.get("OPENSHELL_LOG_LEVEL").map(String::as_str), Some("trace"));
    let env = build_env(&sandbox(Some(DriverSandboxSpec::default())), &config(), "image");
    assert!(env.get("OPENSHELL_LOG_LEVEL").is_none());
}

#[test]
fn handshake_secret_in_plain_text_only_if_the_user_puts_it_there() {
    let name = "OPENSHELL_SSH_HANDSHAKE_SECRET";
    let own = sandbox(Some(DriverSandboxSpec {
        environment: names(&[(name, "own")]),
        ..Default::default()
    }));
    assert_eq!(agent(&own, &config(), false)["env"][name].as_str(), Some("own"));
    assert!(agent(&full_sandbox(0), &config(), false)["env"].get(name).is_none());
    let proxy = build_proxy_sidecar_spec(&own, &config(), "net", &[]);
    assert!(proxy["env"].get(name).is_none());
    assert_eq!(proxy["secret_env"][name].as_str(), Some("openshell-handshake-id-1"));
}

#[test]
fn proxy_environment_has_nothing_of_the_users() {
    let plain = sandbox(Some(DriverSandboxSpec {
        log_level: "debug".to_string(),
        ..Default::default()
    }));
    let a = build_proxy_sidecar_spec(&full_sandbox(0), &config(), "net", &[]);
    let b = build_proxy_sidecar_spec(&plain, &config(), "net", &[]);
    assert_eq!(a["env"], b["env"]);
    let quiet = build_proxy_sidecar_spec(&sandbox(None), &config(), "net", &[]);
    assert!(quiet["env"].get("OPENSHELL_LOG_LEVEL").is_none());
}

#[test]
fn managed_labels_win() {
    let spoofed = names(&[
        (LABEL_SANDBOX_ID, "x"),
        (LABEL_SANDBOX_NAME, "x"),
        (LABEL_SANDBOX_NAMESPACE, "x"),
        (LABEL_MANAGED, "x"),
        ("team", "x"),
    ]);
    let labels = build_labels(&sandbox(Some(DriverSandboxSpec {
        template: Some(DriverSandboxTemplate {
            labels: spoofed,
            ..Default::default()
        }),
        ..Default::default()
    })));
    assert_eq!(labels.get(LABEL_SANDBOX_ID).map(String::as_str), Some("id-1"));
    assert_eq!(labels.get(LABEL_SANDBOX_NAME).map(String::as_str), Some("box"));
    assert_eq!(labels.get(LABEL_SANDBOX_NAMESPACE).map(String::as_str), Some("space"));
    assert_eq!(labels.get(LABEL_MANAGED).map(String::as_str), Some("true"));
    assert_eq!(labels.get("team").map(String::as_str), Some("x"));
    assert_eq!(LABEL_MANAGED_FILTER, format!("{LABEL_MANAGED}=true"));
}

#[test]
fn tls_material_is_all_or_nothing() {
    for missing in 0..3 {
        let mut partial = tls_config();
        match missing {
            0 => partial.guest_tls_ca = None,
            1 => partial.guest_tls_cert = None,
            _ => partial.guest_tls_key = None,
        }
        assert!(!partial.tls_enabled());
        let spec = agent(&sandbox(None), &partial, true);
        assert_eq!(spec["mounts"].as_array().map(|mounts| mounts.len()), Some(1));
        assert!(spec["env"].get("OPENSHELL_TLS_CA").is_none());
    }
    assert!(tls_config().tls_enabled());
    for selinux_enabled in [false, true] {
        let spec = agent(&sandbox(None), &tls_config(), selinux_enabled);
        let mounts = spec["mounts"].as_array().expect("mounts should be an array");
        assert_eq!(mounts.len(), 4);
        for (mount, name) in mounts[1..].iter().zip(["CA", "CERT", "KEY"]) {
            assert_eq!(mount["destination"], spec["env"][format!("OPENSHELL_TLS_{name}")]);
            let options = if selinux_enabled {
                r#"["ro", "rbind", "z"]"#
            } else {
                r#"["ro", "rbind"]"#
            };
            assert_eq!(mount["options"], json(options));
        }
    }
}

#[test]
fn credentials_of_the_user_win() {
    let name = "GOOGLE_APPLICATION_CREDENTIALS";
    let configured = PodmanComputeConfig {
        adc_host_path: Some("/host/adc".to_string()),
        ..config()
    };
    let mut own = full_sandbox(2);
    let spec = build_container_spec(&own, &config(), false);
    assert!(spec["env"].get(name).is_none());
    own.spec = Some(DriverSandboxSpec {
        environment: names(&[(name, "/mine")]),
        template: Some(DriverSandboxTemplate {
            mode: SANDBOX_MODE_NESTED,
            ..Default::default()
        }),
        ..Default::default()
    });
    let spec = build_container_spec(&own, &configured, true);
    assert_eq!(spec["env"][name].as_str(), Some("/mine"));
    // The credentials are not relabeled.
    assert_eq!(spec["mounts"][0]["options"], json(r#"["ro", "rbind"]"#));
    assert_eq!(spec["mounts"][0]["source"].as_str(), Some("/host/adc"));
    assert!(agent(&full_sandbox(0), &configured, true)["env"].get(name).is_none());
}

#[test]
fn devices_by_request() {
    let plain = sandbox(Some(DriverSandboxSpec::default()));
    assert!(build_devices(&plain).is_none());
    assert!(build_devices(&sandbox(None)).is_none());
    let devices = build_devices(&full_sandbox(0)).expect("a GPU is requested");
    assert_eq!(devices.len(), 1);
    assert_eq!(devices[0].path, CDI_GPU_DEVICE_ALL);
    let mut nested = full_sandbox(2);
    if let Some(spec) = nested.spec.as_mut() {
        spec.gpu = false;
    }
    let spec = build_container_spec(&nested, &config(), false);
    assert_eq!(spec["devices"], json(r#"[{"path": "/dev/fuse"}]"#));
}

#[test]
fn limits_fall_back_to_defaults() {
    let with = |cpu: &str, memory: &str| {
        let limits = build_resource_limits(&sandbox(Some(DriverSandboxSpec {
            template: Some(DriverSandboxTemplate {
                resources: Some(ResourceRequirements {
                    cpu_limit: cpu.to_string(),
                    memory_limit: memory.to_string(),
                }),
                ..Default::default()
            }),
            ..Default::default()
        })));
        (limits.cpu.quota, limits.cpu.period, limits.memory.limit)
    };
    assert_eq!(with("", ""), (200_000, 100_000, 4_294_967_296));
    assert_eq!(with("0", "lots"), (200_000, 100_000, 4_294_967_296));
    assert_eq!(with("-1", "-1"), (200_000, 100_000, 4_294_967_296));
    assert_eq!(with("0.5", "1k"), (50_000, 100_000, 1_000));
    assert_eq!(with("4", ""), (400_000, 100_000, 4_294_967_296));
    assert_eq!(with("", "0"), (200_000, 100_000, 0));
    let limits = build_resource_limits(&sandbox(None));
    assert_eq!(limits.cpu.quota, 200_000);
    assert_eq!(limits.memory.limit, 4_294_967_296);
}

#[test]
fn images() {
    let config = config();
    assert_eq!(resolve_image(&full_sandbox(0), &config), "user/image:1");
    assert_eq!(resolve_image(&sandbox(None), &config), "default:1");
    let unnamed = sandbox(Some(DriverSandboxSpec {
        template: Some(DriverSandboxTemplate::default()),
        ..Default::default()
    }));
    assert_eq!(resolve_image(&unnamed, &config), "default:1");
    let bare = sandbox(Some(DriverSandboxSpec::default()));
    assert_eq!(resolve_image(&bare, &config), "default:1");
}

#[test]
fn nested_mode_is_the_templates() {
    assert!(is_nested_mode(&full_sandbox(2)));
    assert!(!is_nested_mode(&full_sandbox(0)));
    assert!(!is_nested_mode(&full_sandbox(1)));
    assert!(!is_nested_mode(&full_sandbox(-2)));
    assert!(!is_nested_mode(&sandbox(None)));
    assert!(!is_nested_mode(&sandbox(Some(DriverSandboxSpec::default()))));
}

#[test]
fn names_do_not_collide() {
    assert_ne!(container_name("a"), container_name("b"));
    assert_ne!(container_name("a"), proxy_container_name("a"));
    assert_ne!(volume_name("a"), tls_volume_name("a"));
    assert_ne!(volume_name("a"), volume_name("a-workspace"));
    assert_eq!(container_name(""), "openshell-sandbox-");
}

#[test]
fn short_ids_count_characters() {
    assert_eq!(short_id(""), "");
    assert_eq!(short_id("abcdefghijkl"), "abcdefghijkl");
    assert_eq!(short_id("abcdefghijklm"), "abcdefghijkl");
    assert_eq!(short_id("äöüäöüäöüäöüß"), "äöüäöüäöüäöü");
    assert_eq!(short_id(&short_id("0123456789abcdef")), "0123456789ab");
}

#[test]
fn decimal_notation() {
    for number in [0, 1, 9, 10, 99, 100, 300, 65_535, u64::MAX - 1, u64::MAX] {
        assert_eq!(decimal(number), number.to_string());
    }
    let long = PodmanComputeConfig {
        ssh_handshake_skew_secs: u64::MAX,
        ssh_port: u16::MAX,
        ..config()
    };
    let spec = agent(&sandbox(None), &long, false);
    assert_eq!(
        spec["env"]["OPENSHELL_SSH_HANDSHAKE_SKEW_SECS"].as_str(),
        Some("18446744073709551615")
    );
    let command = spec["healthconfig"]["test"][1].as_str().expect("a shell command");
    assert!(command.ends_with("grep -q :65535"));
}

#[test]
fn string_maps_keep_one_value_for_a_key() {
    let mut map: StringMap<String> = StringMap::new();
    assert!(map.get("a").is_none());
    map.insert("a".to_string(), "1".to_string());
    map.insert("b".to_string(), "2".to_string());
    map.insert("a".to_string(), "3".to_string());
    map.insert_if_absent("b".to_string(), "4".to_string());
    map.insert_if_absent("c".to_string(), "5".to_string());
    assert_eq!(map.get("a").map(String::as_str), Some("3"));
    assert_eq!(map.get("b").map(String::as_str), Some("2"));
    assert_eq!(map.get("c").map(String::as_str), Some("5"));
    let mut other = names(&[("a", "6"), ("d", "7")]);
    other.insert_all(&map);
    assert_eq!(other.get("a").map(String::as_str), Some("3"));
    assert_eq!(other.get("d").map(String::as_str), Some("7"));
    assert_eq!(other.get("c").map(String::as_str), Some("5"));
}

#[test]
fn template_defaults_are_empty() {
    let template = DriverSandboxTemplate::default();
    assert_eq!(template.image, "");
    assert_eq!(template.mode, 0);
    assert!(template.resources.is_none());
    let spec = DriverSandboxSpec::default();
    assert_eq!(spec.log_level, "");
    assert!(!spec.gpu);
    assert!(spec.template.is_none());
}
