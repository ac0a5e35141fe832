//! Configuration of the Kuadrant filter: upstream endpoints and the services
//! of the policy plugin that call them.

use crate::text::text_eq;
use vstd::prelude::*;

verus! {

/// The names of a sequence of named entries.
pub open spec fn entry_names<V>(es: Seq<(String, V)>) -> Seq<Seq<char>> {
    es.map_values(|e: (String, V)| e.0@)
}

/// A map from names to values, as read from configuration, held as a list of
/// entries with distinct names: Verus gives a hash map keyed by `String` no
/// contract that its lookups could be proved against.
pub struct NameMap<V> {
    entries: Vec<(String, V)>,
}

impl<V> NameMap<V> {
    /// No name occurs twice.
    #[verifier::type_invariant]
    spec fn distinct_names(self) -> bool {
        entry_names(self.entries@).no_duplicates()
    }
}

impl<V> View for NameMap<V> {
    type V = Map<Seq<char>, V>;

    closed spec fn view(&self) -> Map<Seq<char>, V> {
        let names = entry_names(self.entries@);
        Map::new(|k: Seq<char>| names.contains(k), |k: Seq<char>| self.entries@[names.index_of(k)].1)
    }
}

impl<V> NameMap<V> {
    /// An empty map.
    pub fn new() -> (m: Self)
        ensures
            m@ == Map::<Seq<char>, V>::empty(),
    {
        let m = NameMap { entries: Vec::new() };
        assert(m@ =~= Map::<Seq<char>, V>::empty());
        m
    }

    /// The position of the entry called `name`.
    fn position(&self, name: &str) -> (r: Option<usize>)
        ensures
            match r {
                Some(i) => i < self.entries@.len() && self.entries@[i as int].0@ == name@,
                None => !entry_names(self.entries@).contains(name@),
            },
    {
        let n = self.entries.len();
        let mut i: usize = 0;
        while i < n
            invariant
                n == self.entries@.len(),
                i <= n,
                forall|j: int| 0 <= j < i ==> (#[trigger] self.entries@[j]).0@ != name@,
            decreases n - i,
        {
            if text_eq(self.entries[i].0.as_str(), name) {
                return Some(i);
            }
            i = i + 1;
        }
        proof {
            if entry_names(self.entries@).contains(name@) {
                let k = choose|k: int| 0 <= k < n && entry_names(self.entries@)[k] == name@;
                assert(self.entries@[k].0@ == name@);
            }
        }
        None
    }

    /// The entry at position `i` is the one the view gives for its name.
    proof fn lemma_entry_is_view(&self, i: int)
        requires
            entry_names(self.entries@).no_duplicates(),
            0 <= i < self.entries@.len(),
        ensures
            self@.contains_key(self.entries@[i].0@),
            self@[self.entries@[i].0@] == self.entries@[i].1,
    {
        let names = entry_names(self.entries@);
        let k = self.entries@[i].0@;
        assert(names[i] == k);
        assert(names.contains(k));
        let j = names.index_of(k);
        assert(names[j] == k);
        assert(j == i);
    }

    /// Whether some entry is called `name`.
    pub fn contains_key(&self, name: &str) -> (r: bool)
        ensures
            r == self@.contains_key(name@),
    {
        match self.position(name) {
            Some(i) => {
                assert(entry_names(self.entries@)[i as int] == name@);
                true
            },
            None => false,
        }
    }

    /// The value called `name`, if any.
    pub fn get(&self, name: &str) -> (r: Option<&V>)
        ensures
            match r {
                Some(v) => self@.contains_key(name@) && *v == self@[name@],
                None => !self@.contains_key(name@),
            },
    {
        proof {
            use_type_invariant(self);
        }
        match self.position(name) {
            Some(i) => {
                proof {
                    self.lemma_entry_is_view(i as int);
                }
                Some(&self.entries[i].1)
            },
            None => None,
        }
    }

    /// The number of names.
    pub fn len(&self) -> (n: usize)
        ensures
            n == self@.len(),
    {
        proof {
            use_type_invariant(self);
            let names = entry_names(self.entries@);
            names.unique_seq_to_set();
            assert(self@.dom() =~= names.to_set());
        }
        self.entries.len()
    }

    /// Set the value called `name`, replacing any earlier value of that name.
    pub fn insert(&mut self, name: String, value: V)
        ensures
            final(self)@ == old(self)@.insert(name@, value),
    {
        proof {
            use_type_invariant(&*self);
        }
        let ghost old_entries = self.entries@;
        let ghost k = name@;
        let pos = self.position(name.as_str());
        let mut entries: Vec<(String, V)> = Vec::new();
        std::mem::swap(&mut entries, &mut self.entries);
        match pos {
            Some(i) => {
                entries.set(i, (name, value));
                proof {
                    let names = entry_names(entries@);
                    assert(names =~= entry_names(old_entries).update(i as int, k));
                    assert forall|a: int, b: int|
                        0 <= a < names.len() && 0 <= b < names.len() && a != b implies names[a]
                        != names[b] by {
                        assert(entry_names(old_entries)[i as int] == k);
                    }
                }
            },
            None => {
                entries.push((name, value));
                proof {
                    let names = entry_names(entries@);
                    assert(names =~= entry_names(old_entries).push(k));
                }
            },
        }
        proof {
            let names = entry_names(entries@);
            let old_names = entry_names(old_entries);
            assert forall|key: Seq<char>| #[trigger] names.contains(key) <==> (old_names.contains(key)
                || key == k) by {
                if names.contains(key) {
                    let j = choose|j: int| 0 <= j < names.len() && names[j] == key;
                    if key != k {
                        assert(old_names[j] == key);
                    }
                }
                if old_names.contains(key) && key != k {
                    let j = choose|j: int| 0 <= j < old_names.len() && old_names[j] == key;
                    assert(names[j] == key);
                }
                if key == k {
                    match pos {
                        Some(i) => assert(names[i as int] == k),
                        None => assert(names[old_names.len() as int] == k),
                    }
                }
            }
        }
        self.entries = entries;
        proof {
            let names = entry_names(self.entries@);
            let old_names = entry_names(old_entries);
            assert forall|key: Seq<char>| #[trigger] self@.contains_key(key) implies self@[key] == old(
                self,
            )@.insert(k, value)[key] by {
                let j = names.index_of(key);
                self.lemma_entry_is_view(j);
                if key != k {
                    let jo = old_names.index_of(key);
                    assert(old_names[jo] == key);
                    match pos {
                        Some(i) => {
                            assert(jo != i);
                            assert(names[jo] == key);
                            assert(j == jo);
                        },
                        None => {
                            assert(names[jo] == key);
                            assert(j == jo);
                        },
                    }
                    assert(old(self).entries@ == old_entries);
                    old(self).lemma_entry_is_view(jo);
                } else {
                    match pos {
                        Some(i) => assert(names[i as int] == k),
                        None => assert(names[old_names.len() as int] == k),
                    }
                }
            }
            assert(self@ =~= old(self)@.insert(k, value));
        }
    }
}

/// Upstream connection configuration.
pub struct UpstreamConfig {
    url: String,
    timeout: u64,
    max_connections: usize,
}

/// Abstract form of an [`UpstreamConfig`].
pub struct UpstreamView {
    /// gRPC endpoint URL (host:port).
    pub url: Seq<char>,
    /// Connection timeout in milliseconds.
    pub timeout: u64,
    /// Maximum concurrent connections for this upstream.
    pub max_connections: usize,
}

impl View for UpstreamConfig {
    type V = UpstreamView;

    closed spec fn view(&self) -> UpstreamView {
        UpstreamView { url: self.url@, timeout: self.timeout, max_connections: self.max_connections }
    }
}

impl UpstreamConfig {
    /// An upstream at `url` with the given timeout (milliseconds) and
    /// connection limit.
    pub fn new(url: String, timeout: u64, max_connections: usize) -> (c: Self)
        ensures
            c@ == (UpstreamView { url: url@, timeout, max_connections }),
    {
        UpstreamConfig { url, timeout, max_connections }
    }

    /// Returns the gRPC endpoint URL.
    pub fn url(&self) -> (r: &str)
        ensures
            r@ == self@.url,
    {
        self.url.as_str()
    }

    /// Returns the connection timeout in milliseconds.
    pub fn timeout(&self) -> (r: u64)
        ensures
            r == self@.timeout,
    {
        self.timeout
    }

    /// Returns the maximum concurrent connections.
    pub fn max_connections(&self) -> (r: usize)
        ensures
            r == self@.max_connections,
    {
        self.max_connections
    }
}

/// The part of the policy plugin's configuration that this filter reads:
/// its services, by name, with the upstream endpoint each one calls.
pub struct KuadrantServices {
    pub services: NameMap<String>,
}

impl KuadrantServices {
    /// The plugin services `services` (service name to endpoint name).
    pub fn new(services: NameMap<String>) -> (k: Self)
        ensures
            k.services@ == services@,
    {
        KuadrantServices { services }
    }
}

/// Top-level configuration of the Kuadrant filter.
pub struct KuadrantFilterConfig {
    upstreams: NameMap<UpstreamConfig>,
    kuadrant_config: KuadrantServices,
}

/// The message naming a service whose endpoint is no upstream.
pub open spec fn missing_endpoint_message(service: Seq<char>, endpoint: Seq<char>) -> Seq<char> {
    "service '"@ + service + "' references non-existent upstream endpoint '"@ + endpoint + "'"@
}

/// Whether every service's endpoint names an upstream.
pub open spec fn endpoints_resolve(upstreams: Map<Seq<char>, UpstreamConfig>, services: Map<Seq<char>, String>) -> bool {
    forall|name: Seq<char>| #[trigger] services.contains_key(name) ==> upstreams.contains_key(services[name]@)
}

impl KuadrantFilterConfig {
    /// A configuration of these upstreams and plugin services.
    pub fn new(upstreams: NameMap<UpstreamConfig>, kuadrant_config: KuadrantServices) -> (c: Self)
        ensures
            c.upstreams_view() == upstreams@,
            c.services_view() == kuadrant_config.services@,
    {
        KuadrantFilterConfig { upstreams, kuadrant_config }
    }

    /// The upstreams, by name.
    pub closed spec fn upstreams_view(&self) -> Map<Seq<char>, UpstreamConfig> {
        self.upstreams@
    }

    /// The plugin services, by name, with their endpoint.
    pub closed spec fn services_view(&self) -> Map<Seq<char>, String> {
        self.kuadrant_config.services@
    }

    /// Returns a reference to the upstreams map.
    pub fn upstreams(&self) -> (r: &NameMap<UpstreamConfig>)
        ensures
            r@ == self.upstreams_view(),
    {
        &self.upstreams
    }

    /// Returns a reference to the plugin configuration.
    pub fn kuadrant_config(&self) -> (r: &KuadrantServices)
        ensures
            r.services@ == self.services_view(),
    {
        &self.kuadrant_config
    }

    /// Looks up an upstream configuration by name; `None` if it is not found.
    pub fn get_upstream(&self, name: &str) -> (r: Option<&UpstreamConfig>)
        ensures
            match r {
                Some(c) => self.upstreams_view().contains_key(name@) && *c
                    == self.upstreams_view()[name@],
                None => !self.upstreams_view().contains_key(name@),
            },
    {
        self.upstreams.get(name)
    }

    /// Consume this config and return its upstreams and plugin configuration.
    pub fn into_parts(self) -> (r: (NameMap<UpstreamConfig>, KuadrantServices))
        ensures
            r.0@ == self.upstreams_view(),
            r.1.services@ == self.services_view(),
    {
        (self.upstreams, self.kuadrant_config)
    }

    /// Validates the configuration: every service endpoint must reference an
    /// existing upstream.
    ///
    /// # Errors
    ///
    /// Returns a message naming a service whose endpoint is no upstream, and
    /// that endpoint.
    pub fn validate(&self) -> (r: Result<(), String>)
        ensures
            r is Ok <==> endpoints_resolve(self.upstreams_view(), self.services_view()),
            r matches Err(msg) ==> exists|name: Seq<char>|
                #[trigger] self.services_view().contains_key(name) && !self.upstreams_view().contains_key(
                    self.services_view()[name]@,
                ) && msg@ == missing_endpoint_message(name, self.services_view()[name]@),
    {
        let services = &self.kuadrant_config.services;
        proof {
            use_type_invariant(services);
        }
        let n = services.entries.len();
        let mut i: usize = 0;
        while i < n
            invariant
                n == services.entries@.len(),
                *services == self.kuadrant_config.services,
                i <= n,
                entry_names(services.entries@).no_duplicates(),
                forall|j: int|
                    0 <= j < i ==> self.upstreams@.contains_key(
                        (#[trigger] services.entries@[j]).1@,
                    ),
            decreases n - i,
        {
            let name = &services.entries[i].0;
            let endpoint = &services.entries[i].1;
            if !self.upstreams.contains_key(endpoint.as_str()) {
                proof {
                    services.lemma_entry_is_view(i as int);
                    assert(self.services_view().contains_key(name@));
                    assert(self.services_view()[name@] == *endpoint);
                    assert(!endpoints_resolve(self.upstreams_view(), self.services_view()));
                }
                let mut msg = String::from_str("service '");
                msg.append(name.as_str());
                msg.append("' references non-existent upstream endpoint '");
                msg.append(endpoint.as_str());
                msg.append("'");
                return Err(msg);
            }
            i = i + 1;
        }
        proof {
            assert forall|key: Seq<char>| #[trigger] services@.contains_key(key) implies self.upstreams@.contains_key(
                services@[key]@,
            ) by {
                let names = entry_names(services.entries@);
                let j = names.index_of(key);
                services.lemma_entry_is_view(j);
            }
        }
        Ok(())
    }
}

/// A read gives back what a write wrote, and a write to one name leaves the
/// others as they were.
pub proof fn law_name_map_read_after_write<V>(m: Map<Seq<char>, V>, name: Seq<char>, value: V, other: Seq<char>)
    requires
        other != name,
    ensures
        m.insert(name, value).contains_key(name),
        m.insert(name, value)[name] == value,
        m.insert(name, value).contains_key(other) == m.contains_key(other),
        m.contains_key(other) ==> m.insert(name, value)[other] == m[other],
{
}

/// Adding or replacing an upstream never breaks a configuration that
/// validates.
pub proof fn law_more_upstreams_still_validate(
    upstreams: Map<Seq<char>, UpstreamConfig>,
    services: Map<Seq<char>, String>,
    name: Seq<char>,
    upstream: UpstreamConfig,
)
    requires
        endpoints_resolve(upstreams, services),
    ensures
        endpoints_resolve(upstreams.insert(name, upstream), services),
{
}

/// A configuration without plugin services always validates.
pub proof fn law_no_services_validate(upstreams: Map<Seq<char>, UpstreamConfig>)
    ensures
        endpoints_resolve(upstreams, Map::empty()),
{
}

/// Validation needs every service: one service whose endpoint names no
/// upstream makes the configuration fail, and a configuration that validates
/// has every service's endpoint among the upstreams.
pub proof fn law_one_unresolved_service_fails(
    upstreams: Map<Seq<char>, UpstreamConfig>,
    services: Map<Seq<char>, String>,
    name: Seq<char>,
)
    ensures
        services.contains_key(name) && !upstreams.contains_key(services[name]@) ==> !endpoints_resolve(
            upstreams,
            services,
        ),
        endpoints_resolve(upstreams, services) && services.contains_key(name)
            ==> upstreams.contains_key(services[name]@),
{
}

/// The message for an unresolved service quotes the service name and then
/// the endpoint, each whole, after fixed text.
pub proof fn law_missing_endpoint_message_names_both(service: Seq<char>, endpoint: Seq<char>)
    ensures
        missing_endpoint_message(service, endpoint).subrange(9int, 9int + service.len()) == service,
        missing_endpoint_message(service, endpoint).subrange(
            54int + service.len(),
            54int + service.len() + endpoint.len(),
        ) == endpoint,
        missing_endpoint_message(service, endpoint).len() == service.len() + endpoint.len() + 55,
{
    reveal_strlit("service '");
    reveal_strlit("' references non-existent upstream endpoint '");
    reveal_strlit("'");
    let m = missing_endpoint_message(service, endpoint);
    assert(m.subrange(9int, 9int + service.len()) =~= service);
    assert(m.subrange(54int + service.len(), 54int + service.len() + endpoint.len()) =~= endpoint);
}

} // verus!
