use vstd::prelude::*;

verus! {

/// One routing rule: connections that ask for `hostname` go to `dest`.
#[derive(Clone, Debug, PartialEq, Eq)]
pub struct Server {
    pub hostname: String,
    pub dest: String,
}

/// The settings of the proxy and its routing table: the rules in the order
/// in which they were written down, and the backend for every host name
/// that no rule names.
#[derive(Debug, PartialEq, Eq)]
pub struct Config {
    /// The version of the format that the settings were written in.
    pub config_version: i32,
    pub listen: String,
    pub default_server: String,
    pub servers: Vec<Server>,
}

/// What loading the settings came to, before any fallback is applied.
#[derive(Debug)]
pub enum ConfigSource {
    /// The file was read and understood.
    Parsed(Config),
    /// The file was read and made no sense.
    Malformed,
    /// There is no such file.
    Missing,
    /// The file is there and could not be read.
    Unreadable,
}

/// The destination for `hostname`: that of the first rule that names it
/// letter for letter, or `default_server` where none does.
pub open spec fn route(rules: Seq<Server>, default_server: Seq<char>, hostname: Seq<char>) -> Seq<
    char,
>
    decreases rules.len(),
{
    if rules.len() == 0 {
        default_server
    } else if rules[0].hostname@ == hostname {
        rules[0].dest@
    } else {
        route(rules.drop_first(), default_server, hostname)
    }
}

/// Whether any rule names `hostname`.
pub open spec fn has_rule(rules: Seq<Server>, hostname: Seq<char>) -> bool {
    exists|i: int| 0 <= i < rules.len() && (#[trigger] rules[i]).hostname@ == hostname
}

/// Whether the rule at `index` is the first that names `hostname`.
pub open spec fn is_first_rule(rules: Seq<Server>, hostname: Seq<char>, index: int) -> bool {
    &&& 0 <= index < rules.len()
    &&& rules[index].hostname@ == hostname
    &&& forall|j: int| 0 <= j < index ==> (#[trigger] rules[j]).hostname@ != hostname
}

/// A host name goes to the destination of the first rule that names it,
/// whatever later rules say.
pub proof fn lemma_route_first_rule(
    rules: Seq<Server>,
    default_server: Seq<char>,
    hostname: Seq<char>,
    index: int,
)
    requires
        is_first_rule(rules, hostname, index),
    ensures
        route(rules, default_server, hostname) == rules[index].dest@,
    decreases index,
{
    if index > 0 {
        assert(rules[0].hostname@ != hostname);
        let rest = rules.drop_first();
        assert(rest[index - 1] == rules[index]);
        assert forall|j: int| 0 <= j < index - 1 implies (#[trigger] rest[j]).hostname@
            != hostname by {
            assert(rest[j] == rules[j + 1]);
        }
        lemma_route_first_rule(rest, default_server, hostname, index - 1);
    }
}

/// A host name that no rule names goes to the default destination; with no
/// rules at all, every host name does.
pub proof fn lemma_route_default(rules: Seq<Server>, default_server: Seq<char>, hostname: Seq<char>)
    requires
        !has_rule(rules, hostname),
    ensures
        route(rules, default_server, hostname) == default_server,
    decreases rules.len(),
{
    if rules.len() > 0 {
        assert(rules[0].hostname@ != hostname);
        let rest = rules.drop_first();
        assert forall|i: int| 0 <= i < rest.len() implies (#[trigger] rest[i]).hostname@
            != hostname by {
            assert(rest[i] == rules[i + 1]);
        }
        lemma_route_default(rest, default_server, hostname);
    }
}

/// Every host name is routed one of two ways: to the first rule that names
/// it, or to the default where there is no such rule.
pub proof fn lemma_route_cases(rules: Seq<Server>, default_server: Seq<char>, hostname: Seq<char>)
    ensures
        has_rule(rules, hostname) ==> exists|index: int|
            is_first_rule(rules, hostname, index) && route(rules, default_server, hostname)
                == (#[trigger] rules[index]).dest@,
        !has_rule(rules, hostname) ==> route(rules, default_server, hostname) == default_server,
    decreases rules.len(),
{
    if has_rule(rules, hostname) {
        let rest = rules.drop_first();
        if rules[0].hostname@ == hostname {
            assert(is_first_rule(rules, hostname, 0));
        } else {
            let witness = choose|i: int|
                0 <= i < rules.len() && (#[trigger] rules[i]).hostname@ == hostname;
            assert(rest[witness - 1] == rules[witness]);
            assert(has_rule(rest, hostname));
            lemma_route_cases(rest, default_server, hostname);
            let inner = choose|index: int|
                is_first_rule(rest, hostname, index) && route(rest, default_server, hostname)
                    == (#[trigger] rest[index]).dest@;
            assert(rules[inner + 1] == rest[inner]);
            assert forall|j: int| 0 <= j < inner + 1 implies (#[trigger] rules[j]).hostname@
                != hostname by {
                if j > 0 {
                    assert(rules[j] == rest[j - 1]);
                }
            }
            assert(is_first_rule(rules, hostname, inner + 1));
        }
    } else {
        lemma_route_default(rules, default_server, hostname);
    }
}

impl Config {
    /// Whether these are the settings that the proxy falls back on: version
    /// zero, the usual ports on this machine, and no rules.
    pub open spec fn is_builtin(&self) -> bool {
        &&& self.config_version == 0
        &&& self.listen@ == "localhost:25565"@
        &&& self.default_server@ == "localhost:25564"@
        &&& self.servers@.len() == 0
    }

    /// The destination that the table gives for `hostname`.
    pub open spec fn destination(&self, hostname: Seq<char>) -> Seq<char> {
        route(self.servers@, self.default_server@, hostname)
    }

    /// The settings to run with, given what loading them came to: those of
    /// the file where it was understood, the built-in ones where it is
    /// missing or makes no sense, and none where it could not be read.
    pub fn from_source(source: ConfigSource) -> (config: Option<Config>)
        ensures
            match source {
                ConfigSource::Parsed(loaded) => config == Some(loaded),
                ConfigSource::Malformed | ConfigSource::Missing => config is Some
                    && config->0.is_builtin(),
                ConfigSource::Unreadable => config is None,
            },
    {
        match source {
            ConfigSource::Parsed(loaded) => Some(loaded),
            ConfigSource::Malformed => Some(Config::default()),
            ConfigSource::Missing => Some(Config::default()),
            ConfigSource::Unreadable => None,
        }
    }

    /// Picks the backend for a connection that asks for `hostname`: the
    /// destination of the first rule with exactly that host name, or the
    /// default.
    pub fn resolve(&self, hostname: &String) -> (dest: String)
        ensures
            dest@ == self.destination(hostname@),
    {
        let mut index: usize = 0;
        assert(self.servers@.skip(0) =~= self.servers@);
        while index < self.servers.len()
            invariant
                index <= self.servers@.len(),
                self.destination(hostname@) == route(
                    self.servers@.skip(index as int),
                    self.default_server@,
                    hostname@,
                ),
            decreases self.servers@.len() - index,
        {
            let rule = &self.servers[index];
            proof {
                let rest = self.servers@.skip(index as int);
                assert(rest[0] == self.servers@[index as int]);
                assert(rest.drop_first() =~= self.servers@.skip(index + 1));
            }
            if rule.hostname == *hostname {
                return rule.dest.clone();
            }
            index = index + 1;
        }
        self.default_server.clone()
    }
}

impl Default for Config {
    fn default() -> (config: Config)
        ensures
            config.is_builtin(),
    {
        Config {
            config_version: 0,
            listen: "localhost:25565".to_owned(),
            default_server: "localhost:25564".to_owned(),
            servers: Vec::new(),
        }
    }
}

} // verus!
