use vstd::prelude::*;
use vstd::string::{StrSliceExecFns, StringExecFns};

verus! {

// Settings of the single-binary gateway, where each plugin is configured in
// a table of the server's own configuration file.

/// Settings of the gateway server.
pub struct Config {
    pub host: String,
    pub port: String,
    pub plugins_directory: String,
    /// (plugin name, settings) pairs; each settings list holds (key, value)
    /// pairs.
    pub plugins: Vec<(String, Vec<(String, String)>)>,
}

/// Where the gateway looks for plugin components.
pub struct PoolConfig {
    pub plugins_directory: String,
}

/// Metadata a gateway plugin declares.
pub struct HttpPluginMeta {
    pub id: String,
    pub name: String,
    pub version: String,
    pub description: Option<String>,
}

pub open spec fn settings_view(s: Seq<(String, String)>) -> Seq<(Seq<char>, Seq<char>)> {
    s.map_values(|p: (String, String)| (p.0@, p.1@))
}

pub open spec fn base_url_key() -> Seq<char> {
    "base_url"@
}

/// Index of the first `base_url` setting, if any.
pub open spec fn first_base_url(s: Seq<(Seq<char>, Seq<char>)>, n: nat) -> Option<int>
    decreases n,
{
    if n == 0 {
        None
    } else {
        match first_base_url(s, (n - 1) as nat) {
            Some(i) => Some(i),
            None => if n - 1 < s.len() && s[n - 1].0 == base_url_key() {
                Some(n - 1)
            } else {
                None
            },
        }
    }
}

/// A plugin's settings with `base_url` made usable as a prefix: added empty
/// when absent, and stripped of one trailing `/` when present.
pub open spec fn normalized_settings(s: Seq<(Seq<char>, Seq<char>)>) -> Seq<(Seq<char>, Seq<char>)> {
    match first_base_url(s, s.len()) {
        None => s.push((base_url_key(), Seq::empty())),
        Some(i) => if s[i].1.len() > 0 && s[i].1.last() == '/' {
            s.update(i, (s[i].0, s[i].1.drop_last()))
        } else {
            s
        },
    }
}

fn normalize_settings(settings: &mut Vec<(String, String)>)
    ensures
        settings_view(final(settings)@) == normalized_settings(settings_view(old(settings)@)),
{
    let ghost sv = settings_view(settings@);
    let key = "base_url".to_owned();
    proof {
        reveal_strlit("base_url");
    }
    let mut i: usize = 0;
    while i < settings.len()
        invariant
            sv == settings_view(settings@),
            sv == settings_view(old(settings)@),
            i <= settings@.len(),
            key@ == base_url_key(),
            first_base_url(sv, i as nat) is None,
        decreases settings@.len() - i,
    {
        if settings[i].0 == key {
            assert(first_base_url(sv, (i + 1) as nat) == Some(i as int));
            proof {
                lemma_first_stays(sv, (i + 1) as nat, sv.len());
            }
            let value = settings[i].1.clone();
            let n = value.unicode_len();
            if n > 0 && value.get_char(n - 1) == '/' {
                let trimmed = value.substring_char(0, n - 1).to_owned();
                let name = settings[i].0.clone();
                settings.set(i, (name, trimmed));
                assert(trimmed@ =~= sv[i as int].1.drop_last());
                assert(settings_view(settings@) =~= sv.update(i as int, (sv[i as int].0, sv[i as int].1.drop_last())));
            }
            return;
        }
        i = i + 1;
    }
    assert(first_base_url(sv, sv.len()) is None);
    let empty = String::new();
    settings.push((key, empty));
    assert(settings_view(settings@) =~= sv.push((base_url_key(), Seq::empty())));
}

proof fn lemma_first_stays(s: Seq<(Seq<char>, Seq<char>)>, k: nat, n: nat)
    requires
        k <= n,
        first_base_url(s, k) is Some,
    ensures
        first_base_url(s, n) == first_base_url(s, k),
    decreases n,
{
    if n > k {
        lemma_first_stays(s, k, (n - 1) as nat);
    }
}

impl Config {
    /// The gateway settings: absent values at their defaults (`127.0.0.1`,
    /// port `9150`, directory `plugins`), and each plugin's `base_url`
    /// normalized.
    pub fn load(
        host: Option<String>,
        port: Option<String>,
        plugins_directory: Option<String>,
        plugins: Vec<(String, Vec<(String, String)>)>,
    ) -> (r: Config)
        ensures
            host is Some ==> r.host == host->Some_0,
            host is None ==> r.host@ == "127.0.0.1"@,
            port is Some ==> r.port == port->Some_0,
            port is None ==> r.port@ == "9150"@,
            plugins_directory is Some ==> r.plugins_directory == plugins_directory->Some_0,
            plugins_directory is None ==> r.plugins_directory@ == "plugins"@,
            r.plugins@.len() == plugins@.len(),
            forall|i: int|
                0 <= i < plugins@.len() ==> (#[trigger] r.plugins@[i]).0 == plugins@[i].0 && settings_view(
                    r.plugins@[i].1@,
                ) == normalized_settings(settings_view(plugins@[i].1@)),
    {
        let host = match host {
            Some(h) => h,
            None => "127.0.0.1".to_owned(),
        };
        let port = match port {
            Some(p) => p,
            None => "9150".to_owned(),
        };
        let plugins_directory = match plugins_directory {
            Some(d) => d,
            None => "plugins".to_owned(),
        };
        let ghost all = plugins@;
        let mut rest = plugins;
        let mut out: Vec<(String, Vec<(String, String)>)> = Vec::new();
        while rest.len() > 0
            invariant
                out@.len() + rest@.len() == all.len(),
                rest@ == all.skip(out@.len() as int),
                forall|i: int|
                    0 <= i < out@.len() ==> (#[trigger] out@[i]).0 == all[i].0 && settings_view(out@[i].1@)
                        == normalized_settings(settings_view(all[i].1@)),
            decreases rest@.len(),
        {
            let (name, mut settings) = rest.remove(0);
            assert(rest@ =~= all.skip(out@.len() as int + 1));
            normalize_settings(&mut settings);
            out.push((name, settings));
        }
        Config { host, port, plugins_directory, plugins: out }
    }
}

impl Default for PoolConfig {
    fn default() -> (r: PoolConfig)
        ensures
            r.plugins_directory@ == "plugins"@,
    {
        PoolConfig { plugins_directory: "plugins".to_owned() }
    }
}

pub open spec fn strings_view(v: Seq<String>) -> Seq<Seq<char>> {
    v.map_values(|s: String| s@)
}

/// The routes a gateway plugin serves: each declared endpoint that starts
/// with `/`, after the plugin's `base_url`; the others are skipped.
pub open spec fn gateway_routes(base_url: Seq<char>, endpoints: Seq<Seq<char>>) -> Seq<Seq<char>>
    decreases endpoints.len(),
{
    if endpoints.len() == 0 {
        Seq::empty()
    } else {
        let prev = gateway_routes(base_url, endpoints.drop_last());
        let e = endpoints.last();
        if e.len() > 0 && e[0] == '/' {
            prev.push(base_url + e)
        } else {
            prev
        }
    }
}

/// Composes the routes of a gateway plugin from its `base_url` and the
/// endpoints it declares.
pub fn endpoint_routes(base_url: &str, endpoints: &Vec<String>) -> (r: Vec<String>)
    ensures
        strings_view(r@) == gateway_routes(base_url@, strings_view(endpoints@)),
{
    let ghost ev = strings_view(endpoints@);
    let mut routes: Vec<String> = Vec::new();
    let mut i: usize = 0;
    assert(ev.take(0) =~= Seq::<Seq<char>>::empty());
    assert(strings_view(routes@) =~= Seq::<Seq<char>>::empty());
    while i < endpoints.len()
        invariant
            ev == strings_view(endpoints@),
            i <= endpoints@.len(),
            strings_view(routes@) == gateway_routes(base_url@, ev.take(i as int)),
        decreases endpoints@.len() - i,
    {
        let e = &endpoints[i];
        proof {
            assert(ev.take(i + 1).drop_last() =~= ev.take(i as int));
            assert(ev.take(i + 1).last() == e@);
        }
        if e.unicode_len() > 0 && e.get_char(0) == '/' {
            let mut route = base_url.to_owned();
            route.append(e.as_str());
            let ghost before = routes@;
            routes.push(route);
            assert(strings_view(routes@) =~= strings_view(before).push(base_url@ + e@));
        }
        i = i + 1;
    }
    assert(ev.take(i as int) =~= ev);
    routes
}

} // verus!
