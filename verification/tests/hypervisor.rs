//! The programs that run microVMs, and talking to them.
use blinools::sandbox::cloud_hypervisor as plain;
use blinools::sandbox::config::{BinaryConfig, Config, HypervisorType, Network, RootfsType};
use blinools::sandbox::fs::FsMount;
use blinools::sandbox::hypervisor::cloud_hypervisor::{
    ChInfo, CloudHypervisor, ShutdownEvent, ShutdownStep, MAX_API_RESPONSE_LENGTH,
};
use blinools::sandbox::hypervisor::http::{
    api_request, get_header, get_status_code, ApiResponse, Exchange, ExchangeAction,
    ExchangeEvent, Progress, ResponseReader,
};
use blinools::sandbox::hypervisor::qemu::{
    qmp_request, Qemu, QmpAction, QmpEvent, QmpMessage, QmpSession,
};
use blinools::sandbox::hypervisor::{
    cloud_hypervisor, create_qcow2_overlay, ensure_overlay_backs_onto_rootfs, for_sandbox,
    guest_cmdline, new, new_overlay, overlay_path, qemu, rootfs_virtual_size,
    socket_paths_to_validate, Hypervisor, OverlayStep, RootfsSize, SizeSource, State, Verbosity,
    VmConfig,
};
use blinools::sandbox::name::Name;
use blinools::sandbox::socket_path_in;
use imago::format::drivers::FormatDriverInstance;
use imago::qcow2::{Qcow2, Qcow2CreateBuilder};
use imago::{FormatCreateBuilder, Storage};
use std::io::Write;
use std::path::Path;
use tempfile::tempdir;

fn config(hypervisor: HypervisorType) -> Config {
    Config {
        name: Name::new("box").unwrap(),
        kernel: "/k".to_string(),
        kernel_cmdline: String::new(),
        rootfs: "/r".to_string(),
        rootfs_type: RootfsType::Raw,
        memory_mb: 512,
        cpus: 2,
        shares: None,
        guest_uid: 1000,
        inherit_shares: false,
        guest_gid: 1000,
        dns: None,
        network: Network::Lan,
        hypervisor,
        cloud_hypervisor: Some(BinaryConfig { binary: Some("/opt/ch".to_string()) }),
        qemu: Some(BinaryConfig { binary: Some("/opt/qemu".to_string()) }),
        passt: None,
        virtiofsd: None,
    }
}

fn mounts() -> Vec<FsMount> {
    vec![
        FsMount {
            tag: Name::new("data").unwrap(),
            socket_path: "/run/d.sock".to_string(),
            read_only: false,
        },
        FsMount {
            tag: Name::new("notes").unwrap(),
            socket_path: "/run/n.sock".to_string(),
            read_only: true,
        },
    ]
}

fn vm<'a>(name: &'a Name, mounts: &'a Vec<FsMount>, network: Option<&'a str>) -> VmConfig<'a> {
    VmConfig {
        name,
        kernel: "/k",
        rootfs: "/r.img",
        rootfs_type: RootfsType::Raw,
        reset_overlay: false,
        network_socket: network,
        cmdline: "quiet",
        memory_mb: 1024,
        cpus: 4,
        mounts,
    }
}

/// Puts a response together from chunks of the given size.
fn respond(bytes: &[u8], size: usize, limit: Option<usize>) -> Result<ApiResponse, String> {
    let mut reader = ResponseReader::new(limit);
    for chunk in bytes.chunks(size) {
        match reader.feed(chunk) {
            Progress::More => {}
            Progress::Done(response) => return Ok(response),
            Progress::Failed(message) => return Err(message),
        }
    }
    Ok(reader.finish())
}

fn vm_info() -> Vec<u8> {
    let body = r#"{"state":"Running"}"#;
    format!("HTTP/1.1 200 OK\r\nContent-Length: {}\r\n\r\n{body}", body.len()).into_bytes()
}

/// What the body of an answer says of a microVM.
fn info(body: &str) -> Option<ChInfo> {
    let value: serde_json::Value = serde_json::from_str(body).ok()?;
    Some(ChInfo { state: value.get("state")?.as_str()?.to_string() })
}

#[test]
fn cloud_hypervisor_the_state_is_read_from_the_socket_boot_creates() {
    let hypervisor = CloudHypervisor::new(None);
    let name = Name::new("box").unwrap();
    let mounts = Vec::new();
    let boot = hypervisor.boot(&vm(&name, &mounts, None), "/run/box", "/o", Verbosity::Quiet);
    assert_eq!(boot.socket_path, socket_path_in("/run/box", cloud_hypervisor::SOCKET_NAME));
    assert_eq!(
        Hypervisor::CloudHypervisor(CloudHypervisor::new(None)).socket_path("/run/box"),
        boot.socket_path
    );

    let response = respond(&vm_info(), 256, Some(MAX_API_RESPONSE_LENGTH)).unwrap();
    let state = hypervisor.state(true, Some(&response), info(&response.body).as_ref());
    assert_eq!(state.to_text(), "Running");
}

#[test]
fn cloud_hypervisor_a_sandbox_without_a_socket_is_stopped() {
    let hypervisor = CloudHypervisor::new(None);

    assert!(matches!(hypervisor.state(false, None, None), State::Stopped));
}

#[test]
fn an_endless_response_is_cut_off() {
    let mut bytes = b"HTTP/1.1 200 OK\r\nContent-Length: 999999999\r\n\r\n".to_vec();
    bytes.extend([b'x'; 4096].repeat(20));

    let error = respond(&bytes, 256, Some(MAX_API_RESPONSE_LENGTH))
        .expect_err("an endless response has to fail");

    assert!(error.contains(&MAX_API_RESPONSE_LENGTH.to_string()), "{error}");
    assert_eq!(error, "cloud hypervisor answered with more than 65536 bytes");
}

#[test]
fn the_hypervisor_is_asked_step_by_step() {
    let mut exchange = Exchange::api("GET", "vm.info", None, Some(MAX_API_RESPONSE_LENGTH));
    assert!(exchange.request.starts_with("GET /api/v1/vm.info HTTP/1.1\r\n"));
    let done = true;
    let mut step = |event| exchange.api_with_timeout(event);
    assert!(matches!(step(ExchangeEvent::Started), ExchangeAction::Connect));
    assert!(matches!(step(ExchangeEvent::Connected { done }), ExchangeAction::SetReadTimeout));
    assert!(matches!(
        step(ExchangeEvent::ReadTimeoutSet { done }),
        ExchangeAction::SetWriteTimeout
    ));
    assert!(matches!(step(ExchangeEvent::WriteTimeoutSet { done }), ExchangeAction::Send));
    assert!(matches!(step(ExchangeEvent::Sent { done }), ExchangeAction::Flush));
    assert!(matches!(step(ExchangeEvent::Flushed { done }), ExchangeAction::Read));
    let mut bytes = vm_info();
    let rest = bytes.split_off(30);
    assert!(matches!(step(ExchangeEvent::Read(Some(bytes))), ExchangeAction::Read));
    assert!(matches!(
        step(ExchangeEvent::Read(Some(rest))),
        ExchangeAction::Done(response) if response.body == r#"{"state":"Running"}"#
    ));
}

#[test]
fn each_failing_request_has_its_message() {
    let done = false;
    for (event, message) in [
        (ExchangeEvent::Connected { done }, "connecting to cloud hypervisor socket"),
        (
            ExchangeEvent::ReadTimeoutSet { done },
            "setting a read timeout on the cloud hypervisor socket",
        ),
        (
            ExchangeEvent::WriteTimeoutSet { done },
            "setting a write timeout on the cloud hypervisor socket",
        ),
        (ExchangeEvent::Sent { done }, "sending request to cloud hypervisor"),
        (ExchangeEvent::Flushed { done }, "flushing request to cloud hypervisor"),
        (ExchangeEvent::Read(None), "reading response bytes from cloud hypervisor"),
        (
            ExchangeEvent::Read(Some(b"x\r\n\r\n".to_vec())),
            "parsing response for status code",
        ),
    ] {
        let mut exchange = Exchange::api("GET", "vm.info", None, None);
        assert!(matches!(
            exchange.api_with_timeout(event),
            ExchangeAction::Fail(text) if text == message
        ));
    }
    let mut exchange = Exchange::api("GET", "vm.info", None, None);
    assert!(matches!(
        exchange.api_with_timeout(ExchangeEvent::Read(Some(Vec::new()))),
        ExchangeAction::Done(response) if response.status_code == 0
    ));
}

#[test]
fn it_does_not_matter_how_a_response_is_cut_up() {
    for size in 1..80 {
        let response = respond(&vm_info(), size, None).unwrap();
        assert_eq!(response.status_code, 200);
        assert_eq!(response.body, r#"{"state":"Running"}"#);
    }
}

#[test]
fn responses_without_a_body() {
    let response = respond(b"HTTP/1.1 204 No Content\r\n\r\n", 256, None).unwrap();
    assert_eq!((response.status_code, response.body.as_str()), (204, ""));
    // The connection was closed before the body came
    let response =
        respond(b"HTTP/1.1 500 Oops\r\nContent-Length: 5\r\n\r\nabc", 7, None).unwrap();
    assert_eq!((response.status_code, response.body.as_str()), (500, ""));
    assert!(!response.success());
    // Or before anything came
    let response = respond(b"HTTP/1.1 200", 7, None).unwrap();
    assert_eq!(response.status_code, 0);
}

#[test]
fn each_senseless_response_has_its_message() {
    for (bytes, message) in [
        (b"HTTP/1.1 \xff\r\n\r\n".as_slice(), "parsing HTTP headers as UTF-8"),
        (b"HTTP/1.1\r\n\r\n", "parsing response for status code"),
        (b"HTTP/1.1 abc\r\n\r\n", "parsing response for status code"),
        (b"HTTP/1.1 65536 x\r\n\r\n", "parsing response for status code"),
        (b"HTTP/1.1 200 OK\r\n\r\n", "looking for Content-Length header"),
        (b"HTTP/1.1 200 OK\r\nContent-Length: -1\r\n\r\n", "parsing Content-Length header"),
        (
            b"HTTP/1.1 200 OK\r\nContent-Length: 1\r\n\r\n\xff",
            "parsing HTTP body as valid UTF-8",
        ),
    ] {
        assert_eq!(respond(bytes, 256, None).unwrap_err(), message);
    }
    // A length beyond all memory is waited for
    let bytes = b"HTTP/1.1 200 OK\r\nContent-Length: 18446744073709551615\r\n\r\n";
    assert_eq!(respond(bytes, 256, None).unwrap().status_code, 200);
}

#[test]
fn headers_are_found_in_any_case() {
    let headers = "HTTP/1.1 200 OK\r\ncontent-LENGTH : 1\r\nContent-Length:\t 42 \r\nX: a:b";
    assert_eq!(get_header(headers, "Content-Length").as_deref(), Some("42"));
    assert_eq!(get_header(headers, "x").as_deref(), Some("a:b"));
    assert_eq!(get_header(headers, "y"), None);
    assert_eq!(get_status_code("HTTP/1.1\u{a0}+404 Not Found\nmore").unwrap(), 404);
    assert!(get_status_code("").is_err());
}

#[test]
fn requests_say_what_they_want() {
    assert_eq!(
        api_request("GET", "vm.info", None),
        "GET /api/v1/vm.info HTTP/1.1\r\nHost: localhost\r\nAccept: */*\r\n\r\n"
    );
    assert_eq!(
        api_request("PUT", "vm.x", Some("é")),
        "PUT /api/v1/vm.x HTTP/1.1\r\nHost: localhost\r\nAccept: */*\r\nContent-Length: 2\r\n\r\né"
    );
}

#[test]
fn a_state_that_is_not_told_is_unknown() {
    let hypervisor = CloudHypervisor::new(None);
    let refused = ApiResponse { status_code: 404, body: String::new() };
    let granted = ApiResponse { status_code: 299, body: String::new() };
    let info = ChInfo { state: "Paused".to_string() };
    assert_eq!(hypervisor.state(true, None, None).to_text(), "Unknown");
    assert_eq!(hypervisor.state(true, Some(&refused), Some(&info)).to_text(), "Unknown");
    assert_eq!(hypervisor.state(true, Some(&granted), None).to_text(), "Unknown");
    assert_eq!(hypervisor.state(true, Some(&granted), Some(&info)).to_text(), "Paused");
    assert_eq!(State::Stopped.to_text(), "Stopped");
}

#[test]
fn a_sandbox_is_shut_down_before_its_hypervisor() {
    let hypervisor = CloudHypervisor::new(None);
    let granted = || Some(ApiResponse { status_code: 204, body: String::new() });
    let refused = || Some(ApiResponse { status_code: 500, body: String::new() });
    let shutdown = |event, force| hypervisor.shutdown(event, force);
    assert_eq!(
        shutdown(ShutdownEvent::Checked { connected: false }, false),
        ShutdownStep::Done
    );
    assert_eq!(
        shutdown(ShutdownEvent::Checked { connected: true }, false),
        ShutdownStep::AskVm
    );
    assert_eq!(shutdown(ShutdownEvent::VmAsked(granted()), false), ShutdownStep::AskVmm);
    assert_eq!(shutdown(ShutdownEvent::VmAsked(refused()), false), ShutdownStep::Refused);
    assert_eq!(shutdown(ShutdownEvent::VmAsked(refused()), true), ShutdownStep::AskVmm);
    assert_eq!(shutdown(ShutdownEvent::VmAsked(None), true), ShutdownStep::NotAsked);
    assert_eq!(shutdown(ShutdownEvent::VmmAsked(granted()), false), ShutdownStep::Done);
    assert_eq!(shutdown(ShutdownEvent::VmmAsked(refused()), true), ShutdownStep::Refused);
    assert_eq!(
        ShutdownStep::AskVm.request(),
        Some(("PUT".to_string(), "vm.shutdown".to_string()))
    );
    assert_eq!(
        ShutdownStep::AskVmm.request(),
        Some(("PUT".to_string(), "vmm.shutdown".to_string()))
    );
    assert_eq!(ShutdownStep::Done.request(), None);
    assert_eq!(
        ShutdownStep::NotAsked.error().as_deref(),
        Some("requesting cloud hypervisor to shut down the sandbox")
    );
    assert_eq!(
        ShutdownStep::Refused.error().as_deref(),
        Some("shutting down the sandbox was not successful")
    );
}

fn message(text: &str) -> QmpMessage {
    let value: serde_json::Value = serde_json::from_str(text).unwrap();
    QmpMessage {
        id: value.get("id").and_then(serde_json::Value::as_str).map(str::to_string),
        returned: value.get("return").is_some(),
        status: value
            .get("return")
            .and_then(|value| value.get("status"))
            .and_then(serde_json::Value::as_str)
            .map(str::to_string),
        text: value.to_string(),
    }
}

/// What QEMU says when it is asked for its status.
fn query_status() -> Vec<QmpMessage> {
    [
        r#"{"QMP":{"version":{"qemu":{"major":10,"minor":0,"micro":0}},"capabilities":[]}}"#,
        r#"{"return":{},"id":"qmp_capabilities"}"#,
        r#"{"event":"VSERPORT_CHANGE","data":{"open":true,"id":"virtiocon0"}}"#,
        r#"{"timestamp":{"seconds":1,"microseconds":0},"event":"RTC_CHANGE"}"#,
        r#"{"return":{"status":"running","running":true},"id":"query-status"}"#,
    ]
    .into_iter()
    .map(message)
    .collect()
}

/// Carries a command out against QEMU's messages.
fn converse(command: &str, messages: Vec<QmpMessage>) -> (Vec<String>, Result<QmpMessage, String>) {
    let mut session = QmpSession::new(command);
    let mut messages = messages.into_iter();
    let mut sent = Vec::new();
    let mut event = QmpEvent::Connected;
    loop {
        event = match session.execute(event) {
            QmpAction::Send(request) => {
                sent.push(request);
                QmpEvent::Sent
            }
            QmpAction::Read => match messages.next() {
                Some(message) => QmpEvent::Message(message),
                None => QmpEvent::Closed,
            },
            QmpAction::Answer(message) => return (sent, Ok(message)),
            QmpAction::Fail(message) => return (sent, Err(message)),
        }
    }
}

#[test]
fn qemu_the_state_is_read_from_the_socket_boot_creates() {
    let hypervisor = Qemu::new(None);
    let name = Name::new("box").unwrap();
    let mounts = Vec::new();
    let boot = hypervisor.boot(&vm(&name, &mounts, None), "/run/box", "/o", Verbosity::Quiet);
    assert_eq!(boot.socket_path, socket_path_in("/run/box", qemu::SOCKET_NAME));
    assert_eq!(Hypervisor::Qemu(Qemu::new(None)).socket_path("/run/box"), boot.socket_path);

    let answer = converse("query-status", query_status()).1.ok().unwrap();
    assert_eq!(hypervisor.state(true, Some(&answer)).to_text(), "RUNNING");
}

#[test]
fn qemu_a_sandbox_without_a_socket_is_stopped() {
    let hypervisor = Qemu::new(None);

    assert!(matches!(hypervisor.state(false, None), State::Stopped));
    assert_eq!(hypervisor.shutdown_command(false), None);
}

#[test]
fn the_greeting_and_asynchronous_events_are_skipped() {
    let (sent, response) = converse("query-status", query_status());

    assert_eq!(response.ok().unwrap().status.as_deref(), Some("running"));
    assert_eq!(
        sent,
        vec![
            r#"{"execute":"qmp_capabilities","id":"qmp_capabilities"}"#.to_string(),
            r#"{"execute":"query-status","id":"query-status"}"#.to_string(),
        ]
    );
}

#[test]
fn each_failing_conversation_has_its_message() {
    let failure = |command: &str, messages: Vec<QmpMessage>| converse(command, messages).1.err();
    assert_eq!(
        failure("quit", vec![]).as_deref(),
        Some("qmp socket closed before answering qmp_capabilities")
    );
    let mut some = query_status();
    some.truncate(3);
    assert_eq!(failure("quit", some).as_deref(), Some("qmp socket closed before answering quit"));
    assert_eq!(
        failure("quit", vec![message(r#"{"error":{},"id":"qmp_capabilities"}"#)]).as_deref(),
        Some(r#"qmp_capabilities failed: {"error":{},"id":"qmp_capabilities"}"#)
    );
    let mut session = QmpSession::new("quit");
    assert!(matches!(
        session.execute(QmpEvent::NotSent),
        QmpAction::Fail(message) if message == "sending qmp command qmp_capabilities"
    ));
    assert!(matches!(
        session.execute(QmpEvent::Unreadable),
        QmpAction::Fail(message)
            if message == "reading the response to qmp command qmp_capabilities"
    ));
}

#[test]
fn requests_to_qemu_are_json() {
    assert_eq!(qmp_request("quit"), r#"{"execute":"quit","id":"quit"}"#);
    assert_eq!(qmp_request("a\"b"), r#"{"execute":"a\"b","id":"a\"b"}"#);
}

#[test]
fn qemu_is_asked_to_quit() {
    let hypervisor = Qemu::new(None);
    assert_eq!(hypervisor.shutdown_command(true).as_deref(), Some("quit"));
    assert!(hypervisor.shutdown(Some(&message(r#"{"return":{},"id":"quit"}"#))).is_ok());
    assert_eq!(
        hypervisor.shutdown(Some(&message(r#"{"error":1,"id":"quit"}"#))).unwrap_err(),
        r#"shutting down the sandbox was not successful: {"error":1,"id":"quit"}"#
    );
    assert_eq!(
        hypervisor.shutdown(None).unwrap_err(),
        "requesting qemu to shut down the sandbox"
    );
    assert_eq!(hypervisor.state(true, None).to_text(), "Unknown");
    assert_eq!(
        hypervisor.state(true, Some(&message(r#"{"return":{},"id":"x"}"#))).to_text(),
        "Unknown"
    );
}

#[test]
fn the_configured_hypervisor_is_used() {
    let ch = config(HypervisorType::CloudHypervisor);
    let q = config(HypervisorType::Qemu);
    assert!(matches!(new(None), Hypervisor::CloudHypervisor(h) if h.binary == "cloud-hypervisor"));
    assert!(matches!(new(Some(&ch)), Hypervisor::CloudHypervisor(h) if h.binary == "/opt/ch"));
    assert!(matches!(new(Some(&q)), Hypervisor::Qemu(h) if h.binary == "/opt/qemu"));
    assert_eq!(Qemu::new(None).binary, "qemu-system-x86_64");
    assert!(matches!(for_sandbox(Some(&q), true, true), Hypervisor::CloudHypervisor(_)));
    assert!(matches!(for_sandbox(Some(&ch), false, true), Hypervisor::Qemu(_)));
    assert!(matches!(for_sandbox(Some(&q), false, false), Hypervisor::Qemu(_)));
    assert_eq!(
        socket_paths_to_validate(),
        vec!["cloud-hypervisor".to_string(), "qemu-qmp".to_string()]
    );
}

#[test]
fn the_command_line_begins_as_documented() {
    let name = Name::new("box").unwrap();
    let mounts = mounts();
    let cmdline = guest_cmdline(&vm(&name, &mounts, None));
    assert_eq!(
        cmdline,
        "console=hvc0 root=/dev/vda rw systemd.hostname=box quiet systemd.mount-extra=data:/mnt/data:virtiofs:rw systemd.mount-extra=notes:/mnt/notes:virtiofs:ro"
    );
    assert_eq!(cmdline.matches("console=").count(), 1);
    assert_eq!(cmdline.matches("root=").count(), 1);
}

#[test]
fn cloud_hypervisor_is_booted_with_these_arguments() {
    let name = Name::new("box").unwrap();
    let mut mounts = mounts();
    mounts.truncate(1);
    let boot = CloudHypervisor::new(None).boot(
        &vm(&name, &mounts, Some("/run/p.sock")),
        "/run/box",
        "/o.qcow2",
        Verbosity::Debug,
    );
    assert_eq!(boot.program, "cloud-hypervisor");
    assert_eq!(
        boot.arguments,
        [
            "--api-socket",
            "/run/box/cloud-hypervisor.sock",
            "--log-file",
            "/run/box/cloud-hypervisor.log",
            "--kernel",
            "/k",
            "--landlock",
            "--landlock-rules",
            "path=/r.img,access=r",
            "--disk",
            "path=/o.qcow2,image_type=qcow2,backing_files=on",
            "--fs",
            "tag=data,socket=/run/d.sock,num_queues=1,queue_size=512",
            "--cmdline",
            "console=hvc0 root=/dev/vda rw systemd.hostname=box quiet systemd.mount-extra=data:/mnt/data:virtiofs:rw",
            "--cpus",
            "boot=4",
            "--memory",
            "size=1024M,shared=on",
            "--serial",
            "off",
            "--console",
            "tty",
            "--net",
            "vhost_user=true,socket=/run/p.sock",
            "-vv",
        ]
    );
    let files = ["/run/box/cloud-hypervisor.sock", "/run/box/cloud-hypervisor.sock.lock"];
    assert_eq!(boot.stale_files, files);
    assert_eq!(boot.runtime_files, files);
    let verbose = |verbosity| {
        let none = Vec::new();
        let boot = CloudHypervisor::new(None).boot(&vm(&name, &none, None), "/", "/o", verbosity);
        boot.arguments.last().unwrap().clone()
    };
    assert_eq!(verbose(Verbosity::Trace), "-vvv");
    assert_eq!(verbose(Verbosity::Info), "-v");
    assert_eq!(verbose(Verbosity::Quiet), "tty");
}

#[test]
fn qemu_is_booted_with_these_arguments() {
    let name = Name::new("box").unwrap();
    let mut mounts = mounts();
    mounts.truncate(1);
    let boot = Qemu::new(None).boot(
        &vm(&name, &mounts, Some("/run/p.sock")),
        "/run/box",
        "/o.qcow2",
        Verbosity::Trace,
    );
    assert_eq!(
        boot.arguments,
        [
            "-machine",
            "microvm,x-option-roms=off,pit=off,pic=off,isa-serial=off,rtc=off,memory-backend=guest-memory",
            "-object",
            "memory-backend-memfd,id=guest-memory,size=1024M,share=on",
            "-enable-kvm",
            "-cpu",
            "host",
            "-m",
            "1024m",
            "-smp",
            "4",
            "-kernel",
            "/k",
            "-append",
            "console=hvc0 root=/dev/vda rw systemd.hostname=box quiet systemd.mount-extra=data:/mnt/data:virtiofs:rw",
            "-serial",
            "stdio",
            "-nodefaults",
            "-no-reboot",
            "-no-user-config",
            "-nographic",
            "-chardev",
            "stdio,id=virtiocon0,signal=off",
            "-device",
            "virtio-serial-device",
            "-device",
            "virtconsole,chardev=virtiocon0",
            "-drive",
            "id=root,file=/o.qcow2,format=qcow2,if=none",
            "-device",
            "virtio-blk-device,drive=root",
            "-chardev",
            "socket,id=char-data,path=/run/d.sock",
            "-device",
            "vhost-user-fs-device,queue-size=512,chardev=char-data,tag=data",
            "-qmp",
            "unix:/run/box/qemu-qmp.sock,server=on,wait=off",
            "-D",
            "/run/box/qemu-qmp.log",
            "-global",
            "virtio-mmio.force-legacy=false",
            "-chardev",
            "socket,id=char-net0,path=/run/p.sock",
            "-netdev",
            "vhost-user,id=net0,chardev=char-net0,queues=1",
            "-device",
            "virtio-net-device,netdev=net0",
            "-d",
            "guest_errors,unimp,cpu_reset",
        ]
    );
    assert_eq!(boot.stale_files, ["/run/box/qemu-qmp.sock"]);
    assert_eq!(boot.runtime_files, ["/run/box/qemu-qmp.sock"]);
}

#[test]
fn an_overlay_is_kept_unless_it_is_reset() {
    let name = Name::new("box").unwrap();
    let mounts = Vec::new();
    let mut config = vm(&name, &mounts, None);
    let overlay = create_qcow2_overlay(&config, "/state", true);
    assert_eq!(overlay.path, "/state/box/backing_file.qcow2");
    assert_eq!(overlay.step, OverlayStep::Reuse);
    assert_eq!(create_qcow2_overlay(&config, "/state", false).step, OverlayStep::Create);
    config.reset_overlay = true;
    assert_eq!(create_qcow2_overlay(&config, "/state", true).step, OverlayStep::Create);
    assert_eq!(overlay_path("/state", &name), "/state/box/backing_file.qcow2");
    assert_eq!(rootfs_virtual_size(RootfsType::Raw), SizeSource::FileLength);
    assert_eq!(rootfs_virtual_size(RootfsType::QCOW2), SizeSource::ImageHeader);
}

#[test]
fn a_new_overlay_is_backed_by_the_rootfs() {
    let name = Name::new("box").unwrap();
    let mounts = Vec::new();
    let mut config = vm(&name, &mounts, None);
    let size = RootfsSize { source: SizeSource::FileLength, bytes: 512 };
    let overlay = new_overlay(&config, size);
    assert_eq!(overlay.size, 512);
    assert_eq!(overlay.backing_file, "/r.img");
    assert_eq!(overlay.backing_format, "raw");
    let accepted = |config: &VmConfig| {
        ensure_overlay_backs_onto_rootfs(
            config,
            Some(&overlay.backing_file),
            Some(&overlay.backing_format),
        )
        .is_ok()
    };
    assert!(accepted(&config));
    config.rootfs_type = RootfsType::QCOW2;
    assert!(!accepted(&config));
}

#[test]
fn an_overlay_of_another_rootfs_is_refused() {
    let name = Name::new("box").unwrap();
    let mounts = Vec::new();
    let config = vm(&name, &mounts, None);
    assert!(ensure_overlay_backs_onto_rootfs(&config, Some("/r.img"), Some("raw")).is_ok());
    assert_eq!(
        ensure_overlay_backs_onto_rootfs(&config, Some("/x"), Some("qcow2")).unwrap_err(),
        "the overlay of sandbox `box` was created from `/x` (qcow2), but the configured rootfs is `/r.img` (raw). Pass --recreate to build a new overlay, which discards everything the sandbox has written so far."
    );
    assert_eq!(
        ensure_overlay_backs_onto_rootfs(&config, None, None).unwrap_err(),
        "the overlay of sandbox `box` was created from `no backing file` (unknown format), but the configured rootfs is `/r.img` (raw). Pass --recreate to build a new overlay, which discards everything the sandbox has written so far."
    );
}

const VIRTUAL_SIZE: u64 = 5 * 1024 * 1024 * 1024;

fn create_qcow2(path: &Path, size: u64, backing: Option<(&str, &str)>) {
    let file = imago::file::File::create_open(
        imago::StorageCreateOptions::new().filename(path).overwrite(true),
    )
    .unwrap();
    let mut builder = Qcow2CreateBuilder::<imago::file::File>::new(file).size(size);
    if let Some((name, format)) = backing {
        builder = builder.backing(name.to_string(), format.to_string());
    }
    builder.create().unwrap();
}

#[test]
fn a_qcow2_rootfs_is_sized_from_its_virtual_size() {
    let dir = tempdir().unwrap();
    let rootfs = dir.path().join("rootfs.qcow2");
    create_qcow2(&rootfs, VIRTUAL_SIZE, None);

    assert!(rootfs.metadata().unwrap().len() < VIRTUAL_SIZE);
    assert_eq!(rootfs_virtual_size(RootfsType::QCOW2), SizeSource::ImageHeader);
    let opened = Qcow2::<imago::file::File>::open_path(&rootfs, false).unwrap();
    assert_eq!(opened.size(), VIRTUAL_SIZE);
}

#[test]
fn a_raw_rootfs_is_sized_from_its_file_length() {
    let mut rootfs = tempfile::NamedTempFile::new().unwrap();
    rootfs.write_all(&[0u8; 512]).unwrap();

    assert_eq!(rootfs_virtual_size(RootfsType::Raw), SizeSource::FileLength);
    assert_eq!(rootfs.path().metadata().unwrap().len(), 512);
}

#[test]
fn an_overlay_reports_the_rootfs_it_was_created_from() {
    let dir = tempdir().unwrap();
    let overlay = dir.path().join("backing_file.qcow2");
    create_qcow2(
        &overlay,
        VIRTUAL_SIZE,
        Some(("/images/fedora.img", RootfsType::Raw.as_str())),
    );

    let opened = Qcow2::<imago::file::File>::open_path(&overlay, false).unwrap();
    let file = opened.implicit_backing_file().map(String::as_str);
    let format = opened.implicit_backing_format().map(String::as_str);

    assert_eq!(file, Some("/images/fedora.img"));
    assert_eq!(format, Some(RootfsType::Raw.as_str()));
    let name = Name::new("box").unwrap();
    let mounts = Vec::new();
    let mut config = vm(&name, &mounts, None);
    config.rootfs = "/images/fedora.img";
    assert!(ensure_overlay_backs_onto_rootfs(&config, file, format).is_ok());
    config.rootfs_type = RootfsType::QCOW2;
    assert!(ensure_overlay_backs_onto_rootfs(&config, file, format).is_err());
}

#[test]
fn a_plain_microvm_is_created_with_these_arguments() {
    let mut mounts = mounts();
    mounts.truncate(1);
    let vm = plain::create_vm(
        &plain::CloudHypervisorVmConfig {
            name: "box",
            binary: "/opt/ch",
            kernel: "/k",
            rootfs: "/r.img",
            rootfs_type: RootfsType::Raw,
            reset_overlay: false,
            network_socket: "/run/p.sock",
            cmdline: "quiet",
            memory_mb: 1024,
            cpus: 4,
            mounts: &mounts,
        },
        "/run",
        "/o.qcow2",
    );
    assert_eq!(vm.program, "/opt/ch");
    assert_eq!(vm.socket_path, "/run/box/cloud-hypervisor.sock");
    assert_eq!(
        vm.arguments,
        [
            "--api-socket",
            "/run/box/cloud-hypervisor.sock",
            "--kernel",
            "/k",
            "--landlock",
            "--landlock-rules",
            "path=/r.img,access=r",
            "--disk",
            "path=/o.qcow2,image_type=qcow2,backing_files=on",
            "--fs",
            "tag=data,socket=/run/d.sock,num_queues=1,queue_size=512",
            "--cmdline",
            "console=hvc0 root=/dev/vda rw systemd.hostname=box quiet systemd.mount-extra=data:/mnt/data:virtiofs:rw",
            "--net",
            "vhost_user=true,socket=/run/p.sock",
            "--cpus",
            "boot=4",
            "--memory",
            "size=1024M,shared=on",
            "--serial",
            "off",
            "--console",
            "tty",
        ]
    );
}

#[test]
fn a_plain_microvm_is_asked_to_quit() {
    assert!(matches!(
        plain::shutdown_vm(plain::QuitEvent::Checked { connected: false }),
        plain::QuitStep::Done
    ));
    assert!(matches!(
        plain::shutdown_vm(plain::QuitEvent::Checked { connected: true }),
        plain::QuitStep::Ask(method, path) if method == "PUT" && path == "vmm.shutdown"
    ));
    let response = |status_code| Some(ApiResponse { status_code, body: String::new() });
    assert!(matches!(
        plain::shutdown_vm(plain::QuitEvent::Asked(response(204))),
        plain::QuitStep::Done
    ));
    assert!(matches!(
        plain::shutdown_vm(plain::QuitEvent::Asked(response(300))),
        plain::QuitStep::Fail(message) if message == "shutting down the sandbox was not successful"
    ));
    assert!(matches!(
        plain::shutdown_vm(plain::QuitEvent::Asked(None)),
        plain::QuitStep::Fail(message)
            if message == "requesting cloud hypervisor to shut down the sandbox"
    ));
}

#[test]
fn plain_microvms_are_listed() {
    let entry = |name: &str, connected: bool, status: Option<u16>, state: Option<&str>| {
        plain::VmEntry {
            name: Some(name.to_string()),
            connected,
            response: status.map(|status_code| ApiResponse { status_code, body: String::new() }),
            info: state.map(|state| ChInfo { state: state.to_string() }),
        }
    };
    let unreadable =
        plain::VmEntry { name: None, connected: true, response: None, info: None };
    let table = plain::list_vms(&vec![
        entry("a", true, Some(200), Some("Running")),
        unreadable,
        entry("b", false, None, None),
        entry("c", true, Some(200), None),
    ])
    .unwrap();
    assert_eq!(
        table,
        "+------+---------+\n| name | state   |\n+------+---------+\n| a    | Running |\n+------+---------+\n| b    | Stopped |\n+------+---------+\n| c    | Unknown |\n+------+---------+"
    );
    assert_eq!(
        plain::list_vms(&vec![entry("a", true, None, None)]).unwrap_err(),
        "requesting cloud hypervisor for information about the sandbox"
    );
}
