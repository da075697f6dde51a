use crate::types::{
    entries_view, registry_of, unique_keys, AuthConfig, AuthConfigView, ConfigFile,
};
use vstd::prelude::*;

verus! {

/// Index `i` is the first entry of `es` under its nickname.
pub open spec fn is_first(es: Seq<(Seq<char>, AuthConfigView)>, i: int) -> bool {
    &&& 0 <= i < es.len()
    &&& forall|j: int| 0 <= j < i ==> es[j].0 != es[i].0
}

proof fn lemma_has_key(es: Seq<(Seq<char>, AuthConfigView)>, k: Seq<char>)
    ensures
        registry_of(es).contains_key(k) <==> exists|i: int| 0 <= i < es.len() && es[i].0 == k,
    decreases es.len(),
{
    if es.len() > 0 {
        lemma_has_key(es.drop_first(), k);
        if registry_of(es).contains_key(k) && es[0].0 != k {
            let i = choose|i: int| 0 <= i < es.len() - 1 && es.drop_first()[i].0 == k;
            assert(es[i + 1].0 == k);
        }
        if exists|i: int| 0 <= i < es.len() && es[i].0 == k {
            let i = choose|i: int| 0 <= i < es.len() && es[i].0 == k;
            if i > 0 {
                assert(es.drop_first()[i - 1].0 == k);
            }
        }
    }
}

proof fn lemma_first_entry(es: Seq<(Seq<char>, AuthConfigView)>, i: int)
    requires
        is_first(es, i),
    ensures
        registry_of(es).contains_key(es[i].0),
        registry_of(es)[es[i].0] == es[i].1,
    decreases es.len(),
{
    if i > 0 {
        let rest = es.drop_first();
        assert(rest[i - 1] == es[i]);
        assert forall|j: int| 0 <= j < i - 1 implies #[trigger] rest[j].0 != rest[i - 1].0 by {
            assert(rest[j] == es[j + 1]);
        }
        lemma_first_entry(rest, i - 1);
        assert(es[0].0 != es[i].0);
    }
}

proof fn lemma_update_first(es: Seq<(Seq<char>, AuthConfigView)>, i: int, v: AuthConfigView)
    requires
        is_first(es, i),
    ensures
        registry_of(es.update(i, (es[i].0, v))) == registry_of(es).insert(es[i].0, v),
    decreases es.len(),
{
    let k = es[i].0;
    let es2 = es.update(i, (k, v));
    if i == 0 {
        assert(es2.drop_first() == es.drop_first());
        assert(registry_of(es2) =~= registry_of(es).insert(k, v));
    } else {
        let rest = es.drop_first();
        assert(rest[i - 1] == es[i]);
        assert forall|j: int| 0 <= j < i - 1 implies #[trigger] rest[j].0 != rest[i - 1].0 by {
            assert(rest[j] == es[j + 1]);
        }
        lemma_update_first(rest, i - 1, v);
        assert(es2.drop_first() == rest.update(i - 1, (k, v)));
        assert(es[0].0 != k);
        assert(registry_of(es2) =~= registry_of(es).insert(k, v));
    }
}

proof fn lemma_push_new(es: Seq<(Seq<char>, AuthConfigView)>, k: Seq<char>, v: AuthConfigView)
    requires
        forall|i: int| 0 <= i < es.len() ==> es[i].0 != k,
    ensures
        registry_of(es.push((k, v))) == registry_of(es).insert(k, v),
    decreases es.len(),
{
    let es2 = es.push((k, v));
    if es.len() == 0 {
        assert(es2.drop_first() =~= es);
        assert(es2[0] == (k, v));
        assert(registry_of(es2) == registry_of(es).insert(k, v));
    } else {
        let rest = es.drop_first();
        assert forall|i: int| 0 <= i < rest.len() implies rest[i].0 != k by {
            assert(rest[i] == es[i + 1]);
        }
        lemma_push_new(rest, k, v);
        assert(es2.drop_first() =~= rest.push((k, v)));
        assert(registry_of(es2) =~= registry_of(es).insert(k, v));
    }
}

proof fn lemma_remove_first(es: Seq<(Seq<char>, AuthConfigView)>, i: int)
    requires
        is_first(es, i),
    ensures
        registry_of(es.remove(i)).remove(es[i].0) == registry_of(es).remove(es[i].0),
    decreases es.len(),
{
    let k = es[i].0;
    let es2 = es.remove(i);
    if i == 0 {
        assert(es2 =~= es.drop_first());
        assert(registry_of(es) == registry_of(es2).insert(k, es[0].1));
        assert(registry_of(es2).remove(k) =~= registry_of(es).remove(k));
    } else {
        let rest = es.drop_first();
        assert(rest[i - 1] == es[i]);
        assert forall|j: int| 0 <= j < i - 1 implies #[trigger] rest[j].0 != rest[i - 1].0 by {
            assert(rest[j] == es[j + 1]);
        }
        lemma_remove_first(rest, i - 1);
        assert(es2.drop_first() =~= rest.remove(i - 1));
        assert(es2[0] == es[0]);
        assert(es[0].0 != k);
        let r2 = registry_of(rest.remove(i - 1));
        assert(registry_of(es2) == r2.insert(es[0].0, es[0].1));
        assert(registry_of(es) == registry_of(rest).insert(es[0].0, es[0].1));
        assert(registry_of(es2).remove(k) =~= r2.remove(k).insert(es[0].0, es[0].1));
        assert(registry_of(es).remove(k) =~= registry_of(rest).remove(k).insert(es[0].0, es[0].1));
    }
}

/// The index of the first entry under `nickname`, if any.
fn find_entry(config: &ConfigFile, nickname: &str) -> (r: Option<usize>)
    ensures
        match r {
            Some(i) => is_first(entries_view(config.clients@), i as int)
                && config.clients@[i as int].0@ == nickname@,
            None => forall|i: int|
                0 <= i < config.clients@.len() ==> config.clients@[i].0@ != nickname@,
        },
        r is None <==> !config@.contains_key(nickname@),
{
    let key = nickname.to_owned();
    let mut i: usize = 0;
    while i < config.clients.len()
        invariant
            i <= config.clients@.len(),
            key@ == nickname@,
            forall|j: int| 0 <= j < i ==> config.clients@[j].0@ != nickname@,
        decreases config.clients@.len() - i,
    {
        if config.clients[i].0 == key {
            proof {
                let es = entries_view(config.clients@);
                assert(is_first(es, i as int));
                lemma_has_key(es, nickname@);
            }
            return Some(i);
        }
        i = i + 1;
    }
    proof {
        let es = entries_view(config.clients@);
        lemma_has_key(es, nickname@);
        assert forall|j: int| 0 <= j < es.len() implies es[j].0 != nickname@ by {
            assert(es[j].0 == config.clients@[j].0@);
        }
    }
    None
}

proof fn lemma_entries_update(s: Seq<(String, AuthConfig)>, i: int, e: (String, AuthConfig))
    requires
        0 <= i < s.len(),
    ensures
        entries_view(s.update(i, e)) == entries_view(s).update(i, (e.0@, e.1@)),
{
    assert(entries_view(s.update(i, e)) =~= entries_view(s).update(i, (e.0@, e.1@)));
}

proof fn lemma_first_exists(es: Seq<(Seq<char>, AuthConfigView)>, i: int)
    requires
        0 <= i < es.len(),
    ensures
        exists|f: int| #![trigger is_first(es, f)] is_first(es, f) && es[f].0 == es[i].0,
    decreases i,
{
    if !is_first(es, i) {
        let j = choose|j: int| 0 <= j < i && es[j].0 == es[i].0;
        lemma_first_exists(es, j);
    }
}

/// Pairs of (nickname, client) as characters and client views.
pub open spec fn listing_view(v: Seq<(&String, &AuthConfig)>) -> Seq<(Seq<char>, AuthConfigView)> {
    v.map_values(|p: (&String, &AuthConfig)| (p.0@, p.1@))
}

/// `v` lists each entry of registry `m` exactly once, in some order.
pub open spec fn lists_registry(
    v: Seq<(Seq<char>, AuthConfigView)>,
    m: Map<Seq<char>, AuthConfigView>,
) -> bool {
    &&& forall|a: int, b: int| 0 <= a < b < v.len() ==> v[a].0 != v[b].0
    &&& forall|a: int| 0 <= a < v.len() ==> #[trigger] m.contains_key(v[a].0) && m[v[a].0] == v[a].1
    &&& forall|k: Seq<char>| #[trigger] m.contains_key(k) ==> exists|a: int| 0 <= a < v.len() && v[a].0 == k
}

proof fn lemma_unique_update(es: Seq<(Seq<char>, AuthConfigView)>, i: int, v: AuthConfigView)
    requires
        unique_keys(es),
        0 <= i < es.len(),
    ensures
        unique_keys(es.update(i, (es[i].0, v))),
{
    let es2 = es.update(i, (es[i].0, v));
    assert forall|a: int, b: int| 0 <= a < b < es2.len() implies es2[a].0 != es2[b].0 by {
        assert(es2[a].0 == es[a].0 && es2[b].0 == es[b].0);
    }
}

proof fn lemma_unique_push(es: Seq<(Seq<char>, AuthConfigView)>, k: Seq<char>, v: AuthConfigView)
    requires
        unique_keys(es),
        forall|i: int| 0 <= i < es.len() ==> es[i].0 != k,
    ensures
        unique_keys(es.push((k, v))),
{
    let es2 = es.push((k, v));
    assert forall|a: int, b: int| 0 <= a < b < es2.len() implies es2[a].0 != es2[b].0 by {
        assert(es2[a] == es[a]);
        if b < es.len() {
            assert(es2[b] == es[b]);
        }
    }
}

proof fn lemma_unique_remove(es: Seq<(Seq<char>, AuthConfigView)>, i: int)
    requires
        unique_keys(es),
        0 <= i < es.len(),
    ensures
        unique_keys(es.remove(i)),
{
    let es2 = es.remove(i);
    assert forall|a: int, b: int| 0 <= a < b < es2.len() implies es2[a].0 != es2[b].0 by {
        let a1 = if a < i { a } else { a + 1 };
        let b1 = if b < i { b } else { b + 1 };
        assert(es2[a] == es[a1] && es2[b] == es[b1]);
    }
}

/// Every client of `a` is registered in `b` under the same nickname.
fn covers(a: &ConfigFile, b: &ConfigFile) -> (r: bool)
    ensures
        r == (forall|k: Seq<char>| #[trigger] a@.contains_key(k) ==> b@.contains_key(k) && b@[k] == a@[k]),
{
    let ghost es = entries_view(a.clients@);
    let mut i: usize = 0;
    while i < a.clients.len()
        invariant
            es == entries_view(a.clients@),
            i <= es.len(),
            forall|j: int|
                0 <= j < i ==> #[trigger] b@.contains_key(es[j].0) && b@[es[j].0] == a@[es[j].0],
        decreases es.len() - i,
    {
        let key = a.clients[i].0.as_str();
        proof {
            assert(es[i as int].0 == key@);
        }
        let ours = find_entry(a, key);
        let theirs = find_entry(b, key);
        match (ours, theirs) {
            (Some(x), Some(y)) => {
                proof {
                    lemma_first_entry(es, x as int);
                    lemma_first_entry(entries_view(b.clients@), y as int);
                }
                if !(a.clients[x].1 == b.clients[y].1) {
                    return false;
                }
                proof {
                    assert(es[x as int].1 == a.clients@[x as int].1@);
                    assert(entries_view(b.clients@)[y as int].1 == b.clients@[y as int].1@);
                }
            },
            _ => {
                return false;
            },
        }
        i = i + 1;
    }
    proof {
        assert forall|k: Seq<char>| #[trigger] a@.contains_key(k) implies b@.contains_key(k)
            && b@[k] == a@[k] by {
            lemma_has_key(es, k);
            let j = choose|j: int| 0 <= j < es.len() && es[j].0 == k;
            assert(b@.contains_key(es[j].0));
        }
    }
    true
}

impl PartialEq for ConfigFile {
    fn eq(&self, o: &ConfigFile) -> (r: bool) {
        let r = covers(self, o) && covers(o, self);
        proof {
            if r {
                assert(self@ =~= o@);
            }
        }
        r
    }
}

impl vstd::std_specs::cmp::PartialEqSpecImpl for ConfigFile {
    open spec fn obeys_eq_spec() -> bool {
        true
    }

    open spec fn eq_spec(&self, o: &ConfigFile) -> bool {
        self@ == o@
    }
}

/// Access to the client registry.
pub struct ConfigManager;

impl ConfigManager {
    pub fn new() -> (r: ConfigManager)
        ensures
            r == ConfigManager,
    {
        ConfigManager
    }

    /// Registers `auth_config` under `nickname`, replacing any client that
    /// nickname had.
    pub fn add_client(&self, config: &mut ConfigFile, nickname: String, auth_config: AuthConfig)
        ensures
            final(config)@ == old(config)@.insert(nickname@, auth_config@),
            old(config).wf() ==> final(config).wf(),
    {
        let ghost es = entries_view(config.clients@);
        let ghost k = nickname@;
        let ghost v = auth_config@;
        match find_entry(config, nickname.as_str()) {
            Some(i) => {
                config.clients.set(i, (nickname, auth_config));
                proof {
                    assert(entries_view(config.clients@) =~= es.update(i as int, (k, v)));
                    lemma_update_first(es, i as int, v);
                    if unique_keys(es) {
                        lemma_unique_update(es, i as int, v);
                    }
                }
            },
            None => {
                config.clients.push((nickname, auth_config));
                proof {
                    assert(entries_view(config.clients@) =~= es.push((k, v)));
                    assert forall|j: int| 0 <= j < es.len() implies es[j].0 != k by {
                        assert(es[j].0 == old(config).clients@[j].0@);
                    }
                    lemma_push_new(es, k, v);
                    if unique_keys(es) {
                        lemma_unique_push(es, k, v);
                    }
                }
            },
        }
    }

    /// Removes the client registered under `nickname`; true if there was one.
    pub fn remove_client(&self, config: &mut ConfigFile, nickname: &str) -> (r: bool)
        ensures
            r == old(config)@.contains_key(nickname@),
            final(config)@ == old(config)@.remove(nickname@),
            !r ==> final(config).clients@ == old(config).clients@,
            old(config).wf() ==> final(config).wf(),
    {
        let mut removed = false;
        loop
            invariant
                config@.remove(nickname@) == old(config)@.remove(nickname@),
                removed ==> old(config)@.contains_key(nickname@),
                !removed ==> config.clients@ == old(config).clients@,
                old(config).wf() ==> config.wf(),
            decreases config.clients@.len(),
        {
            match find_entry(config, nickname) {
                Some(i) => {
                    let ghost es = entries_view(config.clients@);
                    config.clients.remove(i);
                    proof {
                        assert(entries_view(config.clients@) =~= es.remove(i as int));
                        lemma_remove_first(es, i as int);
                        if unique_keys(es) {
                            lemma_unique_remove(es, i as int);
                        }
                    }
                    removed = true;
                },
                None => {
                    assert(config@ =~= config@.remove(nickname@));
                    return removed;
                },
            }
        }
    }

    /// The client registered under `nickname`, to change in place.
    pub fn get_client_mut<'a>(&self, config: &'a mut ConfigFile, nickname: &str) -> (r: Option<
        &'a mut AuthConfig,
    >)
        ensures
            match r {
                Some(c) => {
                    &&& old(config)@.contains_key(nickname@)
                    &&& (*c)@ == old(config)@[nickname@]
                    &&& final(config)@ == old(config)@.insert(nickname@, (*final(c))@)
                    &&& old(config).wf() ==> final(config).wf()
                },
                None => !old(config)@.contains_key(nickname@) && *final(config) == *old(config),
            },
    {
        match find_entry(config, nickname) {
            Some(i) => {
                proof {
                    lemma_first_entry(entries_view(config.clients@), i as int);
                }
                let ghost cl = config.clients@;
                let ghost es = entries_view(cl);
                let entry = &mut config.clients[i];
                let c = &mut entry.1;
                proof {
                    lemma_update_first(es, i as int, (*final(c))@);
                    lemma_entries_update(cl, i as int, (cl[i as int].0, *final(c)));
                    if unique_keys(es) {
                        lemma_unique_update(es, i as int, (*final(c))@);
                    }
                }
                Some(c)
            },
            None => None,
        }
    }

    /// The client registered under `nickname`.
    pub fn get_client<'a>(&self, config: &'a ConfigFile, nickname: &str) -> (r: Option<&'a AuthConfig>)
        ensures
            match r {
                Some(c) => config@.contains_key(nickname@) && c@ == config@[nickname@],
                None => !config@.contains_key(nickname@),
            },
    {
        match find_entry(config, nickname) {
            Some(i) => {
                proof {
                    lemma_first_entry(entries_view(config.clients@), i as int);
                }
                Some(&config.clients[i].1)
            },
            None => None,
        }
    }

    /// Every registered (nickname, client) pair, once each, in no promised
    /// order.
    pub fn list_clients<'a>(&self, config: &'a ConfigFile) -> (r: Vec<(&'a String, &'a AuthConfig)>)
        ensures
            lists_registry(listing_view(r@), config@),
    {
        let ghost es = entries_view(config.clients@);
        let mut out: Vec<(&'a String, &'a AuthConfig)> = Vec::new();
        let ghost mut idxs: Seq<int> = Seq::empty();
        let mut i: usize = 0;
        while i < config.clients.len()
            invariant
                es == entries_view(config.clients@),
                i <= es.len(),
                idxs.len() == out@.len(),
                forall|m: int|
                    0 <= m < idxs.len() ==> 0 <= #[trigger] idxs[m] < i && is_first(es, idxs[m])
                        && listing_view(out@)[m] == es[idxs[m]],
                forall|a: int, b: int| 0 <= a < b < idxs.len() ==> idxs[a] < idxs[b],
                forall|f: int|
                    0 <= f < i && #[trigger] is_first(es, f) ==> exists|m: int|
                        0 <= m < idxs.len() && idxs[m] == f,
            decreases es.len() - i,
        {
            let mut j: usize = 0;
            let mut seen = false;
            while j < i && !seen
                invariant
                    es == entries_view(config.clients@),
                    i < es.len(),
                    j <= i,
                    seen ==> j > 0 && es[j - 1].0 == es[i as int].0,
                    !seen ==> forall|t: int| 0 <= t < j ==> es[t].0 != es[i as int].0,
                decreases i - j,
            {
                if config.clients[j].0 == config.clients[i].0 {
                    seen = true;
                }
                j = j + 1;
            }
            let ghost before = idxs;
            if !seen {
                let entry = &config.clients[i];
                out.push((&entry.0, &entry.1));
                proof {
                    idxs = idxs.push(i as int);
                    assert(is_first(es, i as int));
                }
            }
            proof {
                assert forall|f: int| 0 <= f < i + 1 && #[trigger] is_first(es, f) implies exists|
                    m: int,
                | 0 <= m < idxs.len() && idxs[m] == f by {
                    if f < i {
                        let m = choose|m: int| 0 <= m < before.len() && before[m] == f;
                        assert(idxs[m] == f);
                    } else if seen {
                        assert(es[j - 1].0 == es[f].0);
                    } else {
                        assert(idxs[idxs.len() - 1] == f);
                    }
                }
            }
            i = i + 1;
        }
        proof {
            let v = listing_view(out@);
            assert forall|a: int, b: int| 0 <= a < b < v.len() implies v[a].0 != v[b].0 by {
                assert(idxs[a] < idxs[b]);
                assert(is_first(es, idxs[b]));
            }
            assert forall|a: int| 0 <= a < v.len() implies #[trigger] config@.contains_key(v[a].0)
                && config@[v[a].0] == v[a].1 by {
                lemma_first_entry(es, idxs[a]);
            }
            assert forall|k: Seq<char>| #[trigger] config@.contains_key(k) implies exists|a: int|
                0 <= a < v.len() && v[a].0 == k by {
                lemma_has_key(es, k);
                let t = choose|t: int| 0 <= t < es.len() && es[t].0 == k;
                lemma_first_exists(es, t);
                let f = choose|f: int| #![trigger is_first(es, f)] is_first(es, f) && es[f].0 == es[t].0;
                let m = choose|m: int| 0 <= m < idxs.len() && idxs[m] == f;
                assert(v[m].0 == k);
            }
        }
        out
    }
}

} // verus!
