use vstd::pervasive::VecAdditionalExecFns;
use vstd::prelude::*;
use vstd::string::*;

use crate::errors::GemError;
use crate::text;

verus! {

/// An association list from strings to strings with unique keys, used for the
/// per-host redirect, proxy, gateway-backend and extra-environment tables.
/// Entries keep their insertion order.
#[derive(Debug, Clone)]
pub struct StrMap {
    pairs: Vec<(String, String)>,
}

impl StrMap {
    /// The entries, in order, as character sequences.
    pub closed spec fn entries(self) -> Seq<(Seq<char>, Seq<char>)> {
        self.pairs@.map_values(|p: (String, String)| (p.0@, p.1@))
    }

    /// Keys are pairwise distinct.
    pub closed spec fn wf(self) -> bool {
        forall|i: int, j: int|
            0 <= i < j < self.entries().len() ==> self.entries()[i].0 != self.entries()[j].0
    }

    pub open spec fn contains_key(self, k: Seq<char>) -> bool {
        exists|i: int| 0 <= i < self.entries().len() && self.entries()[i].0 == k
    }

    /// The mapping the entries describe.
    pub open spec fn as_map(self) -> Map<Seq<char>, Seq<char>> {
        Map::new(
            |k: Seq<char>| self.contains_key(k),
            |k: Seq<char>|
                self.entries()[choose|i: int|
                    0 <= i < self.entries().len() && self.entries()[i].0 == k].1,
        )
    }

    pub fn new() -> (m: StrMap)
        ensures
            m.wf(),
            m.entries() == Seq::<(Seq<char>, Seq<char>)>::empty(),
            m.as_map() == Map::<Seq<char>, Seq<char>>::empty(),
    {
        let m = StrMap { pairs: Vec::new() };
        proof {
            assert(m.entries() =~= Seq::<(Seq<char>, Seq<char>)>::empty());
            assert(m.as_map() =~= Map::<Seq<char>, Seq<char>>::empty());
        }
        m
    }

    pub fn len(&self) -> (n: usize)
        ensures
            n == self.entries().len(),
    {
        self.pairs.len()
    }

    /// The entry at position `i`, as (key, value).
    pub fn entry_at(&self, i: usize) -> (e: (&String, &String))
        requires
            i < self.entries().len(),
        ensures
            e.0@ == self.entries()[i as int].0,
            e.1@ == self.entries()[i as int].1,
    {
        (&self.pairs[i].0, &self.pairs[i].1)
    }

    /// Looks a key up; `Some` exactly when the key is present, and then the
    /// value mapped to it.
    pub fn get(&self, k: &str) -> (r: Option<&String>)
        requires
            self.wf(),
        ensures
            r is Some <==> self.contains_key(k@),
            r is Some ==> self.as_map()[k@] == r.unwrap()@,
    {
        let n = self.pairs.len();
        for i in 0..n
            invariant
                self.wf(),
                n == self.entries().len(),
                forall|j: int| 0 <= j < i ==> self.entries()[j].0 != k@,
        {
            if text::str_eq(self.pairs[i].0.as_str(), k) {
                proof {
                    let wit = choose|w: int|
                        0 <= w < self.entries().len() && self.entries()[w].0 == k@;
                    assert(self.entries()[i as int].0 == k@);
                    assert(wit == i as int);
                }
                return Some(&self.pairs[i].1);
            }
        }
        None
    }

    /// Inserts a mapping, replacing in place the entry of an existing key and
    /// appending a new key at the end.
    pub fn insert(&mut self, k: String, v: String)
        requires
            old(self).wf(),
        ensures
            final(self).wf(),
            final(self).as_map() == old(self).as_map().insert(k@, v@),
            old(self).contains_key(k@) ==> {
                let i = choose|i: int|
                    0 <= i < old(self).entries().len() && old(self).entries()[i].0 == k@;
                final(self).entries() == old(self).entries().update(i, (k@, v@))
            },
            !old(self).contains_key(k@) ==> final(self).entries() == old(self).entries().push(
                (k@, v@),
            ),
    {
        let ghost orig = *self;
        let n = self.pairs.len();
        for i in 0..n
            invariant
                *self == orig,
                orig == *old(self),
                orig.wf(),
                n == orig.entries().len(),
                forall|j: int| 0 <= j < i ==> orig.entries()[j].0 != k@,
        {
            if text::str_eq(self.pairs[i].0.as_str(), k.as_str()) {
                proof {
                    assert(orig.entries()[i as int].0 == k@);
                }
                self.pairs.set(i, (k, v));
                proof {
                    let ghost wit = choose|w: int|
                        0 <= w < orig.entries().len() && orig.entries()[w].0 == k@;
                    assert(wit == i as int);
                    assert(self.entries() =~= orig.entries().update(i as int, (k@, v@)));
                    assert(self.as_map() =~= orig.as_map().insert(k@, v@)) by {
                        lemma_update_as_map(orig, *self, i as int, k@, v@);
                    }
                }
                return ;
            }
        }
        self.pairs.push((k, v));
        proof {
            assert(self.entries() =~= orig.entries().push((k@, v@)));
            assert(forall|j: int|
                0 <= j < orig.entries().len() ==> self.entries()[j] == orig.entries()[j]);
            assert(self.as_map() =~= orig.as_map().insert(k@, v@)) by {
                lemma_push_as_map(orig, *self, k@, v@);
            }
        }
    }
}

proof fn lemma_update_as_map(m0: StrMap, m1: StrMap, i: int, k: Seq<char>, v: Seq<char>)
    requires
        m0.wf(),
        0 <= i < m0.entries().len(),
        m0.entries()[i].0 == k,
        m1.entries() == m0.entries().update(i, (k, v)),
    ensures
        m1.as_map() =~= m0.as_map().insert(k, v),
{
    assert forall|q: Seq<char>| m1.contains_key(q) implies m0.contains_key(q) by {
        let w = choose|w: int| 0 <= w < m1.entries().len() && m1.entries()[w].0 == q;
        if w == i {
            assert(m0.entries()[i].0 == q);
        } else {
            assert(m0.entries()[w].0 == q);
        }
    }
    assert forall|q: Seq<char>| m0.contains_key(q) implies m1.contains_key(q) by {
        let w = choose|w: int| 0 <= w < m0.entries().len() && m0.entries()[w].0 == q;
        if w == i {
            assert(m1.entries()[i].0 == q);
        } else {
            assert(m1.entries()[w].0 == q);
        }
    }
    assert forall|q: Seq<char>| #[trigger] m1.as_map().contains_key(q) implies m1.as_map()[q]
        == m0.as_map().insert(k, v)[q] by {
        let w = choose|w: int| 0 <= w < m1.entries().len() && m1.entries()[w].0 == q;
        let w0 = choose|w0: int| 0 <= w0 < m0.entries().len() && m0.entries()[w0].0 == q;
        if q == k {
            assert(w == i);
        } else {
            assert(w != i);
            assert(m0.entries()[w].0 == q);
            assert(w0 == w);
        }
    }
}

proof fn lemma_push_as_map(m0: StrMap, m1: StrMap, k: Seq<char>, v: Seq<char>)
    requires
        m0.wf(),
        !m0.contains_key(k),
        m1.entries() == m0.entries().push((k, v)),
    ensures
        m1.as_map() =~= m0.as_map().insert(k, v),
{
    let last = m0.entries().len() as int;
    assert(m1.entries()[last] == (k, v));
    assert(forall|j: int| 0 <= j < last ==> m1.entries()[j] == m0.entries()[j]);
    assert forall|q: Seq<char>| #[trigger] m1.contains_key(q) implies m0.as_map().insert(
        k,
        v,
    ).contains_key(q) by {
        let w = choose|w: int| 0 <= w < m1.entries().len() && m1.entries()[w].0 == q;
        if w < last {
            assert(m0.entries()[w].0 == q);
        }
    }
    assert forall|q: Seq<char>| #[trigger] m0.as_map().insert(k, v).contains_key(q) implies m1
        .contains_key(q) by {
        if q == k {
            assert(m1.entries()[last].0 == q);
        } else {
            let w0 = choose|w0: int| 0 <= w0 < m0.entries().len() && m0.entries()[w0].0 == q;
            assert(m1.entries()[w0].0 == q);
        }
    }
    assert forall|q: Seq<char>| #[trigger] m1.as_map().contains_key(q) implies m1.as_map()[q]
        == m0.as_map().insert(k, v)[q] by {
        let w = choose|w: int| 0 <= w < m1.entries().len() && m1.entries()[w].0 == q;
        if q == k {
            assert(w == last);
        } else {
            assert(w < last);
            assert(m0.entries()[w].0 == q);
            let w0 = choose|w0: int| 0 <= w0 < m0.entries().len() && m0.entries()[w0].0 == q;
            assert(w0 == w);
        }
    }
}

/// The mapping described by a sequence of entries, later entries winning.
pub open spec fn spec_map_of_entries(es: Seq<(Seq<char>, Seq<char>)>) -> Map<Seq<char>, Seq<char>>
    decreases es.len(),
{
    if es.len() == 0 {
        Map::empty()
    } else {
        spec_map_of_entries(es.drop_last()).insert(es.last().0, es.last().1)
    }
}

proof fn lemma_map_of_entries(es: Seq<(Seq<char>, Seq<char>)>)
    ensures
        forall|k: Seq<char>|
            #[trigger] spec_map_of_entries(es).contains_key(k) <==> exists|i: int|
                0 <= i < es.len() && (#[trigger] es[i].0) == k,
        forall|i: int|
            0 <= i < es.len() && (forall|j: int| i < j < es.len() ==> es[j].0 != es[i].0)
                ==> spec_map_of_entries(es)[#[trigger] es[i].0] == es[i].1,
    decreases es.len(),
{
    if es.len() > 0 {
        lemma_map_of_entries(es.drop_last());
        let prev = es.drop_last();
        assert(forall|i: int| 0 <= i < prev.len() ==> #[trigger] prev[i] == es[i]);
        assert forall|k: Seq<char>| #[trigger] spec_map_of_entries(es).contains_key(
            k,
        ) implies exists|i: int| 0 <= i < es.len() && (#[trigger] es[i].0) == k by {
            if k == es.last().0 {
                assert(es[es.len() - 1].0 == k);
            } else {
                assert(spec_map_of_entries(prev).contains_key(k));
                let i = choose|i: int| 0 <= i < prev.len() && (#[trigger] prev[i].0) == k;
                assert(es[i].0 == k);
            }
        }
        assert forall|k: Seq<char>|
            (exists|i: int|
                0 <= i < es.len() && (#[trigger] es[i].0)
                    == k) implies #[trigger] spec_map_of_entries(es).contains_key(k) by {
            let i = choose|i: int| 0 <= i < es.len() && (#[trigger] es[i].0) == k;
            if i < es.len() - 1 {
                assert(prev[i].0 == k);
                let c = spec_map_of_entries(prev).contains_key(k);
                assert(c);
            }
        }
        assert forall|i: int|
            0 <= i < es.len() && (forall|j: int|
                i < j < es.len() ==> es[j].0 != es[i].0) implies spec_map_of_entries(
            es,
        )[#[trigger] es[i].0] == es[i].1 by {
            if i == es.len() - 1 {
            } else {
                assert(es[es.len() - 1].0 != es[i].0);
                assert(prev[i].0 == es[i].0);
                assert(forall|j: int| i < j < prev.len() ==> #[trigger] prev[j].0 != prev[i].0);
                assert(spec_map_of_entries(prev)[prev[i].0] == prev[i].1);
            }
        }
    }
}

/// For a table with unique keys the entry fold and the mapping agree.
pub proof fn lemma_strmap_fold(m: StrMap)
    requires
        m.wf(),
    ensures
        spec_map_of_entries(m.entries()) =~= m.as_map(),
{
    lemma_map_of_entries(m.entries());
    let es = m.entries();
    assert forall|k: Seq<char>| #[trigger] spec_map_of_entries(es).contains_key(k) implies m
        .as_map().contains_key(k) by {
        let i = choose|i: int| 0 <= i < es.len() && (#[trigger] es[i].0) == k;
        assert(m.contains_key(k));
    }
    assert forall|k: Seq<char>| #[trigger] m.as_map().contains_key(k) implies spec_map_of_entries(
        es,
    ).contains_key(k) && spec_map_of_entries(es)[k] == m.as_map()[k] by {
        let i = choose|i: int| 0 <= i < es.len() && (#[trigger] es[i].0) == k;
        assert(forall|j: int| i < j < es.len() ==> es[j].0 != es[i].0);
        assert(spec_map_of_entries(es)[es[i].0] == es[i].1);
        let w = choose|w: int| 0 <= w < es.len() && es[w].0 == k;
        assert(w == i);
    }
}

/// The per-host configuration: document root, TLS identity files, and the
/// optional routing tables consulted by the dispatcher.
#[derive(Debug, Clone)]
pub struct Server {
    pub hostname: String,
    pub dir: String,
    pub key: String,
    pub cert: String,
    pub index: Option<String>,
    pub lang: Option<String>,
    pub cgi: Option<bool>,
    pub cgipath: Option<String>,
    pub cgienv: Option<StrMap>,
    pub usrdir: Option<bool>,
    pub proxy: Option<StrMap>,
    pub proxy_all: Option<String>,
    pub redirect: Option<StrMap>,
    pub scgi: Option<StrMap>,
}

impl Server {
    /// Every optional table has unique keys.
    pub open spec fn wf(self) -> bool {
        &&& (self.cgienv matches Some(m) ==> m.wf())
        &&& (self.proxy matches Some(m) ==> m.wf())
        &&& (self.redirect matches Some(m) ==> m.wf())
        &&& (self.scgi matches Some(m) ==> m.wf())
    }
}

/// A host's configuration as handed to connection handling.
#[derive(Debug, Clone)]
pub struct ServerCfg {
    pub server: Server,
}

/// The whole configuration: listen addresses, log level, and one entry per
/// virtual host.
#[derive(Debug, Clone)]
pub struct Config {
    pub port: Option<u16>,
    pub host: Option<String>,
    pub interface: Option<Vec<String>>,
    pub log: Option<String>,
    pub server: Vec<Server>,
}

impl Config {
    pub open spec fn wf(self) -> bool {
        forall|i: int| 0 <= i < self.server@.len() ==> (#[trigger] self.server@[i]).wf()
    }

    /// Checks the listen-address rules: either `interface` alone is given, or
    /// both `host` and `port` and nothing else.
    pub fn validate(&self) -> (r: Result<(), GemError>)
        ensures
            r is Ok <==> ((self.interface is Some && self.host is None && self.port is None) || (
            self.interface is None && self.host is Some && self.port is Some)),
    {
        if self.interface.is_some() && (self.host.is_some() || self.port.is_some()) {
            Err(GemError(String::from_str("You need to specify either host/port or interface")))
        } else if self.interface.is_none() && self.host.is_none() && self.port.is_none() {
            Err(GemError(String::from_str("You need to specify either host/port or interface")))
        } else if self.host.is_some() && self.port.is_some() {
            Ok(())
        } else if self.interface.is_some() {
            Ok(())
        } else {
            Err(GemError(String::from_str("You need to specify either host/port or interface")))
        }
    }

    /// Builds the registry mapping each hostname to its host configuration;
    /// on a duplicated hostname the later entry wins.
    pub fn to_map(self) -> (r: Registry)
        ensures
            r.wf(),
            r.as_map() == spec_registry_map(self.server@),
    {
        let ghost full = self.server@;
        let mut servers = self.server;
        let mut r = Registry { pairs: Vec::new() };
        let ghost mut i: int = 0;
        proof {
            assert(r.entries() =~= Seq::<(Seq<char>, ServerCfg)>::empty());
            assert(r.as_map() =~= Map::<Seq<char>, ServerCfg>::empty());
            assert(full.subrange(0, 0) =~= Seq::<Server>::empty());
            assert(servers@ =~= full.subrange(0, full.len() as int));
        }
        while servers.len() > 0
            invariant
                0 <= i <= full.len(),
                servers@ == full.subrange(i, full.len() as int),
                r.wf(),
                r.as_map() == spec_registry_map(full.subrange(0, i)),
            decreases servers@.len(),
        {
            let srv = servers.remove(0);
            proof {
                assert(srv == full[i]);
            }
            let host = srv.hostname.clone();
            r.insert(host, ServerCfg { server: srv });
            proof {
                assert(full.subrange(0, i + 1).drop_last() =~= full.subrange(0, i));
                assert(full.subrange(0, i + 1).last() == full[i]);
                i = i + 1;
                assert(servers@ =~= full.subrange(i, full.len() as int));
            }
        }
        proof {
            assert(full.subrange(0, full.len() as int) =~= full);
        }
        r
    }
}

/// The mapping a list of host configurations describes, later entries winning.
pub open spec fn spec_registry_map(servers: Seq<Server>) -> Map<Seq<char>, ServerCfg>
    decreases servers.len(),
{
    if servers.len() == 0 {
        Map::empty()
    } else {
        spec_registry_map(servers.drop_last()).insert(
            servers.last().hostname@,
            ServerCfg { server: servers.last() },
        )
    }
}

/// The registry: an association list from hostname to host configuration,
/// built once per configuration generation and read-only afterwards.
#[derive(Debug, Clone)]
pub struct Registry {
    pairs: Vec<(String, ServerCfg)>,
}

impl Registry {
    pub closed spec fn entries(self) -> Seq<(Seq<char>, ServerCfg)> {
        self.pairs@.map_values(|p: (String, ServerCfg)| (p.0@, p.1))
    }

    pub closed spec fn wf(self) -> bool {
        forall|i: int, j: int|
            0 <= i < j < self.entries().len() ==> self.entries()[i].0 != self.entries()[j].0
    }

    pub open spec fn contains_key(self, k: Seq<char>) -> bool {
        exists|i: int| 0 <= i < self.entries().len() && self.entries()[i].0 == k
    }

    pub open spec fn as_map(self) -> Map<Seq<char>, ServerCfg> {
        Map::new(
            |k: Seq<char>| self.contains_key(k),
            |k: Seq<char>|
                self.entries()[choose|i: int|
                    0 <= i < self.entries().len() && self.entries()[i].0 == k].1,
        )
    }

    /// Exact-match hostname lookup: `Some` exactly when the hostname is
    /// registered.
    pub fn lookup(&self, hostname: &str) -> (r: Option<&ServerCfg>)
        requires
            self.wf(),
        ensures
            r is Some <==> self.contains_key(hostname@),
            r is Some ==> *r.unwrap() == self.as_map()[hostname@],
    {
        let n = self.pairs.len();
        for i in 0..n
            invariant
                self.wf(),
                n == self.entries().len(),
                forall|j: int| 0 <= j < i ==> self.entries()[j].0 != hostname@,
        {
            if text::str_eq(self.pairs[i].0.as_str(), hostname) {
                proof {
                    let wit = choose|w: int|
                        0 <= w < self.entries().len() && self.entries()[w].0 == hostname@;
                    assert(self.entries()[i as int].0 == hostname@);
                    assert(wit == i as int);
                }
                return Some(&self.pairs[i].1);
            }
        }
        None
    }

    fn insert(&mut self, k: String, v: ServerCfg)
        requires
            old(self).wf(),
        ensures
            final(self).wf(),
            final(self).as_map() == old(self).as_map().insert(k@, v),
    {
        let ghost orig = *self;
        let n = self.pairs.len();
        for i in 0..n
            invariant
                *self == orig,
                orig == *old(self),
                orig.wf(),
                n == orig.entries().len(),
                forall|j: int| 0 <= j < i ==> orig.entries()[j].0 != k@,
        {
            if text::str_eq(self.pairs[i].0.as_str(), k.as_str()) {
                proof {
                    assert(orig.entries()[i as int].0 == k@);
                }
                self.pairs.set(i, (k, v));
                proof {
                    assert(self.entries() =~= orig.entries().update(i as int, (k@, v)));
                    lemma_registry_update_as_map(orig, *self, i as int, k@, v);
                }
                return ;
            }
        }
        self.pairs.push((k, v));
        proof {
            assert(self.entries() =~= orig.entries().push((k@, v)));
            lemma_registry_push_as_map(orig, *self, k@, v);
        }
    }
}

proof fn lemma_registry_update_as_map(m0: Registry, m1: Registry, i: int, k: Seq<char>, v: ServerCfg)
    requires
        m0.wf(),
        0 <= i < m0.entries().len(),
        m0.entries()[i].0 == k,
        m1.entries() == m0.entries().update(i, (k, v)),
    ensures
        m1.wf(),
        m1.as_map() =~= m0.as_map().insert(k, v),
{
    assert forall|q: Seq<char>| m1.contains_key(q) implies m0.contains_key(q) by {
        let w = choose|w: int| 0 <= w < m1.entries().len() && m1.entries()[w].0 == q;
        if w == i {
            assert(m0.entries()[i].0 == q);
        } else {
            assert(m0.entries()[w].0 == q);
        }
    }
    assert forall|q: Seq<char>| m0.contains_key(q) implies m1.contains_key(q) by {
        let w = choose|w: int| 0 <= w < m0.entries().len() && m0.entries()[w].0 == q;
        if w == i {
            assert(m1.entries()[i].0 == q);
        } else {
            assert(m1.entries()[w].0 == q);
        }
    }
    assert forall|q: Seq<char>| #[trigger] m1.as_map().contains_key(q) implies m1.as_map()[q]
        == m0.as_map().insert(k, v)[q] by {
        let w = choose|w: int| 0 <= w < m1.entries().len() && m1.entries()[w].0 == q;
        let w0 = choose|w0: int| 0 <= w0 < m0.entries().len() && m0.entries()[w0].0 == q;
        if q == k {
            assert(w == i);
        } else {
            assert(w != i);
            assert(m0.entries()[w].0 == q);
            assert(w0 == w);
        }
    }
}

proof fn lemma_registry_push_as_map(m0: Registry, m1: Registry, k: Seq<char>, v: ServerCfg)
    requires
        m0.wf(),
        !m0.contains_key(k),
        m1.entries() == m0.entries().push((k, v)),
    ensures
        m1.wf(),
        m1.as_map() =~= m0.as_map().insert(k, v),
{
    let last = m0.entries().len() as int;
    assert(m1.entries()[last] == (k, v));
    assert(forall|j: int| 0 <= j < last ==> m1.entries()[j] == m0.entries()[j]);
    assert forall|q: Seq<char>| #[trigger] m1.contains_key(q) implies m0.as_map().insert(
        k,
        v,
    ).contains_key(q) by {
        let w = choose|w: int| 0 <= w < m1.entries().len() && m1.entries()[w].0 == q;
        if w < last {
            assert(m0.entries()[w].0 == q);
        }
    }
    assert forall|q: Seq<char>| #[trigger] m0.as_map().insert(k, v).contains_key(q) implies m1
        .contains_key(q) by {
        if q == k {
            assert(m1.entries()[last].0 == q);
        } else {
            let w0 = choose|w0: int| 0 <= w0 < m0.entries().len() && m0.entries()[w0].0 == q;
            assert(m1.entries()[w0].0 == q);
        }
    }
    assert forall|q: Seq<char>| #[trigger] m1.as_map().contains_key(q) implies m1.as_map()[q]
        == m0.as_map().insert(k, v)[q] by {
        let w = choose|w: int| 0 <= w < m1.entries().len() && m1.entries()[w].0 == q;
        if q == k {
            assert(w == last);
        } else {
            assert(w < last);
            assert(m0.entries()[w].0 == q);
            let w0 = choose|w0: int| 0 <= w0 < m0.entries().len() && m0.entries()[w0].0 == q;
            assert(w0 == w);
        }
    }
}

/// Log verbosity accepted by the configuration.
#[derive(Clone, Copy, PartialEq, Eq, Structural, Debug)]
pub enum LogLevel {
    ErrorLevel,
    WarnLevel,
    InfoLevel,
}

/// The level a configured log-level string stands for: absent means `Info`;
/// any string other than `error`, `warn` or `info` is rejected.
pub open spec fn spec_log_level(l: Option<Seq<char>>) -> Option<LogLevel> {
    match l {
        None => Some(LogLevel::InfoLevel),
        Some(s) => if s == "error"@ {
            Some(LogLevel::ErrorLevel)
        } else if s == "warn"@ {
            Some(LogLevel::WarnLevel)
        } else if s == "info"@ {
            Some(LogLevel::InfoLevel)
        } else {
            None
        },
    }
}

/// The configured log-level strings as character sequences.
pub open spec fn spec_opt_chars(l: Option<String>) -> Option<Seq<char>> {
    match l {
        None => None,
        Some(s) => Some(s@),
    }
}

/// Maps the configured log-level string to a level, rejecting exactly the
/// strings `spec_log_level` rejects.
pub fn parse_log_level(l: &Option<String>) -> (r: Result<LogLevel, GemError>)
    ensures
        r is Ok <==> spec_log_level(spec_opt_chars(*l)) is Some,
        r matches Ok(level) ==> spec_log_level(spec_opt_chars(*l)) == Some(level),
{
    match l {
        None => Ok(LogLevel::InfoLevel),
        Some(s) => {
            proof {
                reveal_strlit("error");
                reveal_strlit("warn");
                reveal_strlit("info");
            }
            if text::str_eq(s.as_str(), "error") {
                Ok(LogLevel::ErrorLevel)
            } else if text::str_eq(s.as_str(), "warn") {
                Ok(LogLevel::WarnLevel)
            } else if text::str_eq(s.as_str(), "info") {
                Ok(LogLevel::InfoLevel)
            } else {
                Err(GemError(String::from_str("Incorrect log level in config file.")))
            }
        },
    }
}

} // verus!
