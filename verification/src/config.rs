//! The configuration that the proxy runs with, and its defaults.

use vstd::prelude::*;

verus! {

/// Where the proxy listens, and how many clients it admits at once.
#[derive(Debug, Clone, PartialEq)]
pub struct ListenerConfig {
    pub bind: String,
    pub max_connections: usize,
}

impl Default for ListenerConfig {
    fn default() -> (config: ListenerConfig)
        ensures
            config.bind@ == "127.0.0.1:25577"@,
            config.max_connections == 8196,
    {
        ListenerConfig { bind: "127.0.0.1:25577".to_owned(), max_connections: 8196 }
    }
}

/// How the proxy treats the clients that it has admitted.
#[derive(Debug, Clone, PartialEq)]
pub struct ProxyConfig {
    /// Bodies longer than this are compressed; zero turns compression off.
    pub compression_threshold: u32,
    pub max_players: i32,
    pub online_mode: bool,
    /// `"bungeecord"` to forward the player's address and profile to the
    /// backend inside the handshake; anything else forwards nothing.
    pub player_forward_mode: String,
    pub player_limit: i32,
    pub prevent_proxy_connections: bool,
    pub motd: String,
    pub favicon: String,
}

impl Default for ProxyConfig {
    fn default() -> (config: ProxyConfig)
        ensures
            config.compression_threshold == 256,
            config.max_players == 4000,
            config.online_mode,
            config.player_forward_mode@ == "none"@,
            config.player_limit == -1,
            !config.prevent_proxy_connections,
            config.motd@ == "§dAnother Lure proxy"@,
            config.favicon@ == "server-icon.png"@,
    {
        ProxyConfig {
            compression_threshold: 256,
            max_players: 4000,
            online_mode: true,
            player_forward_mode: "none".to_owned(),
            player_limit: -1,
            prevent_proxy_connections: false,
            motd: "§dAnother Lure proxy".to_owned(),
            favicon: "server-icon.png".to_owned(),
        }
    }
}

/// A table from names to names, in which no name occurs twice as a key.
#[derive(Debug, Clone)]
pub struct Table {
    entries: Vec<(String, String)>,
}

/// Whether no two of `entries` have the same key.
pub open spec fn distinct_keys(entries: Seq<(String, String)>) -> bool {
    forall|i: int, j: int|
        0 <= i < entries.len() && 0 <= j < entries.len() && i != j ==> (#[trigger] entries[i]).0@
            != (#[trigger] entries[j]).0@
}

/// Whether one of `entries` has the key `key`.
pub open spec fn has_key(entries: Seq<(String, String)>, key: Seq<char>) -> bool {
    exists|i: int| 0 <= i < entries.len() && (#[trigger] entries[i]).0@ == key
}

/// The place of an entry with the key `key`.
pub open spec fn place_of(entries: Seq<(String, String)>, key: Seq<char>) -> int {
    choose|i: int| 0 <= i < entries.len() && (#[trigger] entries[i]).0@ == key
}

/// The mapping that `entries` stand for.
pub open spec fn mapping_of(entries: Seq<(String, String)>) -> Map<Seq<char>, Seq<char>> {
    Map::new(
        |key: Seq<char>| has_key(entries, key),
        |key: Seq<char>| entries[place_of(entries, key)].1@,
    )
}

impl View for Table {
    type V = Map<Seq<char>, Seq<char>>;

    closed spec fn view(&self) -> Map<Seq<char>, Seq<char>> {
        mapping_of(self.entries@)
    }
}

impl Table {
    /// What holds of every table: no key occurs twice.
    pub closed spec fn wf(&self) -> bool {
        distinct_keys(self.entries@)
    }

    /// The entries in the order in which their keys were first inserted.
    pub closed spec fn listed(&self) -> Seq<(String, String)> {
        self.entries@
    }

    /// A table without entries.
    pub fn new() -> (table: Table)
        ensures
            table.wf(),
            table@ == Map::<Seq<char>, Seq<char>>::empty(),
    {
        let table = Table { entries: Vec::new() };
        assert(table@ =~= Map::<Seq<char>, Seq<char>>::empty());
        table
    }

    fn find(&self, key: &String) -> (place: Option<usize>)
        requires
            self.wf(),
        ensures
            match place {
                Some(i) => i < self.entries@.len() && self.entries@[i as int].0@ == key@
                    && has_key(self.entries@, key@) && place_of(self.entries@, key@) == i,
                None => !has_key(self.entries@, key@),
            },
    {
        let mut i: usize = 0;
        while i < self.entries.len()
            invariant
                self.wf(),
                i <= self.entries@.len(),
                forall|j: int| 0 <= j < i ==> (#[trigger] self.entries@[j]).0@ != key@,
            decreases self.entries@.len() - i,
        {
            if self.entries[i].0 == *key {
                proof {
                    assert(self.entries@[i as int].0@ == key@);
                    let j = place_of(self.entries@, key@);
                    assert(self.entries@[j].0@ == key@);
                }
                return Some(i);
            }
            i = i + 1;
        }
        None
    }

    /// The value that stands under `key`, if there is one.
    pub fn get(&self, key: &String) -> (value: Option<String>)
        requires
            self.wf(),
        ensures
            match value {
                Some(v) => self@.contains_key(key@) && self@[key@] == v@,
                None => !self@.contains_key(key@),
            },
    {
        match self.find(key) {
            Some(i) => Some(self.entries[i].1.clone()),
            None => None,
        }
    }

    /// Whether a value stands under `key`.
    pub fn contains_key(&self, key: &String) -> (found: bool)
        requires
            self.wf(),
        ensures
            found == self@.contains_key(key@),
    {
        self.find(key).is_some()
    }

    /// Puts `value` under `key`, in place of what stood there.
    pub fn insert(&mut self, key: String, value: String)
        requires
            old(self).wf(),
        ensures
            final(self).wf(),
            final(self)@ == old(self)@.insert(key@, value@),
    {
        let ghost before = self.entries@;
        match self.find(&key) {
            Some(i) => {
                self.entries.set(i, (key, value));
            },
            None => {
                self.entries.push((key, value));
            },
        }
        proof {
            let after = self.entries@;
            assert(distinct_keys(after));
            assert forall|k: Seq<char>| has_key(after, k) <==> (k == key@ || has_key(
                before,
                k,
            )) by {
                if has_key(after, k) {
                    let j = place_of(after, k);
                    if j < before.len() && k != key@ {
                        assert(before[j].0@ == k);
                    }
                }
                if k == key@ {
                    if has_key(before, key@) {
                        assert(after[place_of(before, key@)].0@ == key@);
                    } else {
                        assert(after[before.len() as int].0@ == key@);
                    }
                } else if has_key(before, k) {
                    assert(after[place_of(before, k)].0@ == k);
                }
            }
            assert forall|k: Seq<char>| has_key(after, k) implies #[trigger] mapping_of(after)[k]
                == old(self)@.insert(key@, value@)[k] by {
                let j = place_of(after, k);
                if k != key@ {
                    assert(before[j].0@ == k);
                    let b = place_of(before, k);
                    assert(after[b].0@ == k);
                }
            }
            assert(self@ =~= old(self)@.insert(key@, value@));
        }
    }

    /// The number of entries.
    pub fn len(&self) -> (n: usize)
        ensures
            n == self.listed().len(),
    {
        self.entries.len()
    }

    /// The entry at `index`, counted in the order of `listed`.
    pub fn entry(&self, index: usize) -> (pair: (String, String))
        requires
            index < self.listed().len(),
        ensures
            pair.0@ == self.listed()[index as int].0@,
            pair.1@ == self.listed()[index as int].1@,
    {
        (self.entries[index].0.clone(), self.entries[index].1.clone())
    }
}

/// Everything that the proxy is configured with.
#[derive(Debug, Clone)]
pub struct LureConfig {
    pub listener: ListenerConfig,
    pub proxy: ProxyConfig,
    /// From the host name that a client asked for to the name of a server. The
    /// key `"*"` stands for every host name that has no entry of its own.
    pub hosts: Table,
    /// From the name of a server to its address, as `ip:port`.
    pub servers: Table,
}

impl LureConfig {
    /// The table of hosts that a configuration has where it names none.
    pub fn default_hosts() -> (hosts: Table)
        ensures
            hosts.wf(),
            hosts@ == Map::<Seq<char>, Seq<char>>::empty().insert("*"@, "lobby"@),
    {
        let mut hosts = Table::new();
        hosts.insert("*".to_owned(), "lobby".to_owned());
        hosts
    }

    /// The table of servers that a configuration has where it names none.
    pub fn default_servers() -> (servers: Table)
        ensures
            servers.wf(),
            servers@ == Map::<Seq<char>, Seq<char>>::empty().insert("lobby"@, "127.0.0.1:25565"@),
    {
        let mut servers = Table::new();
        servers.insert("lobby".to_owned(), "127.0.0.1:25565".to_owned());
        servers
    }

    /// What holds of every configuration: its tables are well formed.
    pub open spec fn wf(&self) -> bool {
        self.hosts.wf() && self.servers.wf()
    }
}

impl Default for LureConfig {
    fn default() -> (config: LureConfig)
        ensures
            config.wf(),
            config.hosts@ == Map::<Seq<char>, Seq<char>>::empty().insert("*"@, "lobby"@),
            config.servers@ == Map::<Seq<char>, Seq<char>>::empty().insert(
                "lobby"@,
                "127.0.0.1:25565"@,
            ),
            config.listener.bind@ == "127.0.0.1:25577"@,
            config.listener.max_connections == 8196,
            config.proxy.compression_threshold == 256,
            config.proxy.max_players == 4000,
            config.proxy.online_mode,
            config.proxy.player_forward_mode@ == "none"@,
            config.proxy.player_limit == -1,
            !config.proxy.prevent_proxy_connections,
            config.proxy.motd@ == "§dAnother Lure proxy"@,
            config.proxy.favicon@ == "server-icon.png"@,
    {
        LureConfig {
            listener: ListenerConfig::default(),
            proxy: ProxyConfig::default(),
            hosts: LureConfig::default_hosts(),
            servers: LureConfig::default_servers(),
        }
    }
}

} // verus!
