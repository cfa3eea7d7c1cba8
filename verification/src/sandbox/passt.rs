//! The network of a sandbox.
use vstd::prelude::*;

use crate::paths;
use crate::sandbox;
use crate::sandbox::config::Config;
use crate::sandbox::fs;
use crate::sandbox::fs::Launch;
use crate::text;

verus! {

/// How long passt has to create its socket, in milliseconds.
pub const SOCKET_TIMEOUT_MS: u64 = 10000;

/// The name of the socket of passt.
pub const SOCKET_NAME: &'static str = "passt";

/// User-mode networking through passt.
pub struct PasstNetwork {
    pub launch: Launch,
}

/// The arguments for each of the name servers.
pub open spec fn dns_arguments(servers: Seq<Seq<char>>) -> Seq<Seq<char>>
    decreases servers.len(),
{
    if servers.len() == 0 {
        Seq::empty()
    } else {
        dns_arguments(servers.drop_last()).push("--dns"@).push(servers.last())
    }
}

/// The arguments of passt. The guest has a fixed address, nothing of the host is mapped into
/// its network and no port is forwarded to it.
pub open spec fn passt_arguments(
    socket: Seq<char>,
    servers: Option<Seq<Seq<char>>>,
) -> Seq<Seq<char>> {
    seq![
        "--vhost-user"@,
        "--socket"@,
        socket,
        "--repair-path"@,
        "none"@,
        "--foreground"@,
        "--no-map-gw"@,
        "--map-host-loopback"@,
        "none"@,
        "--map-guest-addr"@,
        "none"@,
        "-t"@,
        "none"@,
        "-u"@,
        "none"@,
        "--address"@,
        "10.200.0.2/24"@,
        "--gateway"@,
        "10.200.0.1"@,
    ] + (match servers {
        Some(servers) => dns_arguments(servers),
        None => Seq::empty(),
    })
}

/// Writes the arguments for each of the name servers.
fn dns_config(servers: &Vec<String>) -> (arguments: Vec<String>)
    ensures
        text::texts(arguments@) == dns_arguments(text::texts(servers@)),
{
    let ghost all = text::texts(servers@);
    let mut arguments: Vec<String> = Vec::new();
    assert(text::texts(arguments@) =~= dns_arguments(all.take(0)));
    for i in 0..servers.len()
        invariant
            all == text::texts(servers@),
            text::texts(arguments@) == dns_arguments(all.take(i as int)),
    {
        assert(all.take(i + 1).drop_last() =~= all.take(i as int));
        text::push_text(&mut arguments, "--dns");
        text::push_text(&mut arguments, servers[i].as_str());
    }
    assert(all.take(all.len() as int) =~= all);
    arguments
}

impl PasstNetwork {
    /// Plans the network of a sandbox.
    pub fn new(config: &Config, runtime_dir: &str) -> (network: Self)
        ensures
            network.launch.program@ == fs::program_path(config.passt, "passt"@),
            network.launch.socket_path@ == sandbox::socket_in(
                paths::join(runtime_dir@, config.name@),
                SOCKET_NAME@,
            ),
            text::texts(network.launch.arguments@) == passt_arguments(
                network.launch.socket_path@,
                match config.dns {
                    Some(servers) => Some(text::texts(servers@)),
                    None => None,
                },
            ),
    {
        let socket_path: String = sandbox::socket_path(runtime_dir, &config.name, SOCKET_NAME);
        let mut arguments: Vec<String> = Vec::new();
        text::push_text(&mut arguments, "--vhost-user");
        text::push_text(&mut arguments, "--socket");
        text::push_text(&mut arguments, socket_path.as_str());
        text::push_text(&mut arguments, "--repair-path");
        text::push_text(&mut arguments, "none");
        text::push_text(&mut arguments, "--foreground");
        text::push_text(&mut arguments, "--no-map-gw");
        text::push_text(&mut arguments, "--map-host-loopback");
        text::push_text(&mut arguments, "none");
        text::push_text(&mut arguments, "--map-guest-addr");
        text::push_text(&mut arguments, "none");
        text::push_text(&mut arguments, "-t");
        text::push_text(&mut arguments, "none");
        text::push_text(&mut arguments, "-u");
        text::push_text(&mut arguments, "none");
        text::push_text(&mut arguments, "--address");
        text::push_text(&mut arguments, "10.200.0.2/24");
        text::push_text(&mut arguments, "--gateway");
        text::push_text(&mut arguments, "10.200.0.1");
        if let Some(servers) = &config.dns {
            let dns: Vec<String> = dns_config(servers);
            text::push_texts(&mut arguments, &dns);
        }
        assert(text::texts(arguments@) =~= passt_arguments(
            socket_path@,
            match config.dns {
                Some(servers) => Some(text::texts(servers@)),
                None => None,
            },
        ));
        PasstNetwork {
            launch: Launch { program: fs::program(&config.passt, "passt"), arguments, socket_path },
        }
    }

    /// The socket of the network.
    pub fn socket_path(&self) -> (path: &str)
        ensures
            path@ == self.launch.socket_path@,
    {
        self.launch.socket_path.as_str()
    }
}

/// The arguments of passt, one by one, and behind them two for each name server.
pub proof fn lemma_arguments_of_passt(config: &Config, runtime_dir: &str, network: PasstNetwork)
    requires
        call_ensures(PasstNetwork::new, (config, runtime_dir), network),
    ensures
        ({
            let found = network.launch.arguments@;
            &&& network.launch.socket_path@ == paths::join(
                paths::join(runtime_dir@, config.name@),
                "passt"@ + ".sock"@,
            )
            &&& found.len() == 19 + (match config.dns {
                Some(servers) => 2 * servers@.len(),
                None => 0,
            })
            &&& found[0]@ == "--vhost-user"@
            &&& found[1]@ == "--socket"@ && found[2]@ == network.launch.socket_path@
            &&& found[3]@ == "--repair-path"@ && found[4]@ == "none"@
            &&& found[5]@ == "--foreground"@
            &&& found[6]@ == "--no-map-gw"@
            &&& found[7]@ == "--map-host-loopback"@ && found[8]@ == "none"@
            &&& found[9]@ == "--map-guest-addr"@ && found[10]@ == "none"@
            &&& found[11]@ == "-t"@ && found[12]@ == "none"@
            &&& found[13]@ == "-u"@ && found[14]@ == "none"@
            &&& found[15]@ == "--address"@ && found[16]@ == "10.200.0.2/24"@
            &&& found[17]@ == "--gateway"@ && found[18]@ == "10.200.0.1"@
            &&& config.dns matches Some(servers) ==> forall|i: int|
                0 <= i < servers@.len() ==> found[20 + 2 * i]@ == (#[trigger] servers@[i])@
                    && found[19 + 2 * i]@ == "--dns"@
        }),
{
    let found = text::texts(network.launch.arguments@);
    assert(found.len() == network.launch.arguments@.len());
    assert forall|i: int| 0 <= i < found.len() implies network.launch.arguments@[i]@
        == #[trigger] found[i] by {}
    assert(found[0] == "--vhost-user"@);
    assert(found[1] == "--socket"@ && found[2] == network.launch.socket_path@);
    assert(found[3] == "--repair-path"@ && found[4] == "none"@);
    assert(found[5] == "--foreground"@ && found[6] == "--no-map-gw"@);
    assert(found[7] == "--map-host-loopback"@ && found[8] == "none"@);
    assert(found[9] == "--map-guest-addr"@ && found[10] == "none"@);
    assert(found[11] == "-t"@ && found[12] == "none"@ && found[13] == "-u"@ && found[14]
        == "none"@);
    assert(found[15] == "--address"@ && found[16] == "10.200.0.2/24"@);
    assert(found[17] == "--gateway"@ && found[18] == "10.200.0.1"@);
    if let Some(servers) = config.dns {
        let all = text::texts(servers@);
        let dns = dns_arguments(all);
        lemma_dns_arguments(all);
        assert forall|i: int| 0 <= i < servers@.len() implies network.launch.arguments@[20 + 2
            * i]@ == (#[trigger] servers@[i])@ && network.launch.arguments@[19 + 2 * i]@
            == "--dns"@ by {
            assert(all[i] == servers@[i]@);
            assert(found[19 + 2 * i] == dns[2 * i]);
            assert(found[20 + 2 * i] == dns[2 * i + 1]);
        }
    }
}

/// Each name server has two arguments.
proof fn lemma_dns_arguments(servers: Seq<Seq<char>>)
    ensures
        dns_arguments(servers).len() == 2 * servers.len(),
        forall|i: int|
            0 <= i < servers.len() ==> dns_arguments(servers)[2 * i + 1] == #[trigger] servers[i]
                && dns_arguments(servers)[2 * i] == "--dns"@,
    decreases servers.len(),
{
    if servers.len() > 0 {
        let rest = servers.drop_last();
        lemma_dns_arguments(rest);
        assert forall|i: int| 0 <= i < servers.len() implies dns_arguments(servers)[2 * i + 1]
            == #[trigger] servers[i] && dns_arguments(servers)[2 * i] == "--dns"@ by {
            if i < rest.len() {
                assert(rest[i] == servers[i]);
            }
        }
    }
}

/// Where passt is started from, and where its socket is.
pub proof fn lemma_place_of_passt(
    config: &Config,
    runtime_dir: &str,
    network: PasstNetwork,
    path: &str,
)
    requires
        call_ensures(PasstNetwork::new, (config, runtime_dir), network),
        call_ensures(PasstNetwork::socket_path, (&network,), path),
    ensures
        config.passt is None ==> network.launch.program@ == "passt"@,
        (config.passt matches Some(given) && given.binary is Some) ==> network.launch.program@
            == config.passt.unwrap().binary.unwrap()@,
        path@ == paths::join(paths::join(runtime_dir@, config.name@), "passt"@ + ".sock"@),
{
}

} // verus!
