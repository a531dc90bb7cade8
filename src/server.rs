use vstd::prelude::*;
use vstd::string::StringExecFns;

verus! {

/// Where the server listens.
pub struct Config {
    pub host: String,
    pub port: String,
}

impl Config {
    /// The settings found in the configuration source, each absent one at
    /// its default (`127.0.0.1`, port `9000`).
    pub fn load(host: Option<String>, port: Option<String>) -> (r: Config)
        ensures
            host is Some ==> r.host == host->Some_0,
            host is None ==> r.host@ == "127.0.0.1"@,
            port is Some ==> r.port == port->Some_0,
            port is None ==> r.port@ == "9000"@,
    {
        let host = match host {
            Some(h) => h,
            None => "127.0.0.1".to_owned(),
        };
        let port = match port {
            Some(p) => p,
            None => "9000".to_owned(),
        };
        Config { host, port }
    }

    /// The address to bind, `host:port`.
    pub fn address(&self) -> (r: String)
        ensures
            r@ == self.host@ + seq![':'] + self.port@,
    {
        let mut r = self.host.clone();
        r.append(":");
        r.append(self.port.as_str());
        proof {
            reveal_strlit(":");
        }
        r
    }
}

impl Default for Config {
    fn default() -> (r: Config)
        ensures
            r.host@ == "127.0.0.1"@,
            r.port@ == "9000"@,
    {
        Config { host: "127.0.0.1".to_owned(), port: "9000".to_owned() }
    }
}

/// The HTTP front-end, with the settings it serves with.
pub struct Server {
    config: Config,
}

impl Server {
    pub fn new(config: Config) -> (r: Server)
        ensures
            r.config_spec() == config,
    {
        Server { config }
    }

    pub closed spec fn config_spec(&self) -> Config {
        self.config
    }

    /// The settings the server was made with.
    pub fn config(&self) -> (r: &Config)
        ensures
            *r == self.config_spec(),
    {
        &self.config
    }
}

} // verus!
