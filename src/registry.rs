use vstd::prelude::*;

use crate::meta::PluginMeta;

verus! {

/// Stack-wide settings, as read from `wassel.toml`.
pub struct StackMeta {
    pub variables: Vec<(String, String)>,
}

/// A deployed plugin found on disk: its directory and its parsed manifest.
pub struct PluginEntry {
    pub path: String,
    pub meta: PluginMeta,
}

/// Why a stack cannot be loaded.
#[derive(PartialEq, Eq, Debug)]
pub enum StackError {
    /// Two plugins declare this id.
    DuplicateId(String),
}

/// The plugins of a stack, keyed by id, with the directory of each.
pub struct StackConfig {
    pub meta: StackMeta,
    /// (id, directory) pairs.
    pub plugin_paths: Vec<(String, String)>,
    /// (id, manifest) pairs.
    pub plugins: Vec<(String, PluginMeta)>,
}

pub open spec fn keys_of<V>(pairs: Seq<(String, V)>) -> Seq<Seq<char>> {
    pairs.map_values(|p: (String, V)| p.0@)
}

pub open spec fn unique(s: Seq<Seq<char>>) -> bool {
    forall|i: int, j: int| 0 <= i < j < s.len() ==> s[i] != s[j]
}

/// Index `k` holds the first id that repeats an earlier one.
pub open spec fn is_first_repeat(s: Seq<Seq<char>>, k: int) -> bool {
    &&& 0 <= k < s.len()
    &&& !has_duplicate(s.take(k))
    &&& s.take(k).contains(s[k])
}

/// Some id occurs twice.
pub open spec fn has_duplicate(s: Seq<Seq<char>>) -> bool {
    exists|i: int, j: int| 0 <= i < j < s.len() && s[i] == s[j]
}

pub open spec fn entry_ids(entries: Seq<PluginEntry>) -> Seq<Seq<char>> {
    entries.map_values(|e: PluginEntry| e.meta.id@)
}

/// Index of the pair with key `key`, if any.
fn find_key<V>(pairs: &Vec<(String, V)>, key: &String) -> (r: Option<usize>)
    ensures
        r is Some ==> r->Some_0 < pairs@.len() && pairs@[r->Some_0 as int].0@ == key@,
        r is Some ==> keys_of(pairs@).contains(key@),
        r is None ==> !keys_of(pairs@).contains(key@),
{
    let mut i: usize = 0;
    while i < pairs.len()
        invariant
            i <= pairs@.len(),
            forall|j: int| 0 <= j < i ==> pairs@[j].0@ != key@,
        decreases pairs@.len() - i,
    {
        if pairs[i].0 == *key {
            assert(keys_of(pairs@)[i as int] == key@);
            return Some(i);
        }
        i = i + 1;
    }
    proof {
        if keys_of(pairs@).contains(key@) {
            let j = choose|j: int| 0 <= j < keys_of(pairs@).len() && keys_of(pairs@)[j] == key@;
            assert(pairs@[j].0@ == key@);
        }
    }
    None
}

impl StackConfig {
    /// Ids are unique among plugins and among directories.
    pub open spec fn wf(&self) -> bool {
        unique(keys_of(self.plugins@)) && unique(keys_of(self.plugin_paths@))
    }

    /// A stack with no plugin.
    pub fn new(meta: StackMeta) -> (r: StackConfig)
        ensures
            r.wf(),
            r.plugins@.len() == 0,
            r.plugin_paths@.len() == 0,
    {
        StackConfig { meta, plugin_paths: Vec::new(), plugins: Vec::new() }
    }

    /// Adds a plugin found in directory `path`; fails if its id is taken.
    pub fn register_plugin(&mut self, path: String, meta: PluginMeta) -> (r: Result<(), StackError>)
        requires
            old(self).wf(),
            keys_of(old(self).plugin_paths@) == keys_of(old(self).plugins@),
        ensures
            final(self).wf(),
            keys_of(final(self).plugin_paths@) == keys_of(final(self).plugins@),
            r is Err <==> keys_of(old(self).plugins@).contains(meta.id@),
            r is Err ==> r == Err::<(), StackError>(StackError::DuplicateId(meta.id)),
            r is Err ==> final(self).plugins@ == old(self).plugins@ && final(self).plugin_paths@
                == old(self).plugin_paths@,
            r is Ok ==> keys_of(final(self).plugins@) == keys_of(old(self).plugins@).push(meta.id@),
            r is Ok ==> final(self).plugins@.last().1 == meta,
            r is Ok ==> final(self).plugin_paths@.last().1@ == path@,
            r is Ok ==> final(self).plugins@.drop_last() == old(self).plugins@,
            r is Ok ==> final(self).plugin_paths@.drop_last() == old(self).plugin_paths@,
    {
        let id = meta.id.clone();
        match find_key(&self.plugins, &id) {
            Some(i) => {
                proof {
                    assert(keys_of(self.plugins@)[i as int] == id@);
                }
                return Err(StackError::DuplicateId(meta.id));
            },
            None => {},
        }
        let ghost old_plugins = self.plugins@;
        let ghost old_paths = self.plugin_paths@;
        self.plugin_paths.push((id.clone(), path));
        self.plugins.push((id, meta));
        proof {
            assert(keys_of(self.plugins@) =~= keys_of(old_plugins).push(meta.id@));
            assert(keys_of(self.plugin_paths@) =~= keys_of(old_paths).push(meta.id@));
            assert(self.plugins@.drop_last() =~= old_plugins);
            assert(self.plugin_paths@.drop_last() =~= old_paths);
            assert forall|i: int, j: int|
                0 <= i < j < keys_of(self.plugins@).len() implies keys_of(self.plugins@)[i] != keys_of(
                self.plugins@,
            )[j] by {
                if j == keys_of(old_plugins).len() {
                    assert(keys_of(old_plugins)[i] == keys_of(self.plugins@)[i]);
                } else {
                    assert(keys_of(old_plugins)[i] == keys_of(self.plugins@)[i]);
                    assert(keys_of(old_plugins)[j] == keys_of(self.plugins@)[j]);
                }
            }
        }
        Ok(())
    }

    /// Collects the plugins found on disk, in order. Fails as soon as two of
    /// them declare the same id, which would make routing ambiguous.
    pub fn load(meta: StackMeta, entries: Vec<PluginEntry>) -> (r: Result<StackConfig, StackError>)
        ensures
            r is Err <==> has_duplicate(entry_ids(entries@)),
            r is Err ==> exists|k: int|
                #[trigger] is_first_repeat(entry_ids(entries@), k) && r->Err_0->DuplicateId_0@ == entry_ids(
                    entries@,
                )[k],
            r is Ok ==> r->Ok_0.wf(),
            r is Ok ==> keys_of(r->Ok_0.plugins@) == entry_ids(entries@),
            r is Ok ==> keys_of(r->Ok_0.plugin_paths@) == entry_ids(entries@),
            r is Ok ==> forall|i: int|
                0 <= i < entries@.len() ==> (#[trigger] r->Ok_0.plugins@[i]).1 == entries@[i].meta
                    && r->Ok_0.plugin_paths@[i].1@ == entries@[i].path@,
    {
        let ghost all = entries@;
        let ghost ids = entry_ids(all);
        let count = entries.len();
        assert(all.len() == count);
        let mut rest = entries;
        let mut config = StackConfig::new(meta);
        let mut k: usize = 0;
        let mut failure: Option<StackError> = None;
        assert(ids.take(0) =~= keys_of(config.plugins@));
        while rest.len() > 0
            invariant_except_break
                k + rest@.len() == all.len(),
                rest@ == all.skip(k as int),
                failure is None,
            invariant
                ids == entry_ids(all),
                k <= all.len(),
                all.len() <= usize::MAX,
                config.wf(),
                keys_of(config.plugins@) == ids.take(k as int),
                keys_of(config.plugin_paths@) == keys_of(config.plugins@),
                !has_duplicate(ids.take(k as int)),
                forall|i: int|
                    0 <= i < k ==> (#[trigger] config.plugins@[i]).1 == all[i].meta
                        && config.plugin_paths@[i].1@ == all[i].path@,
            ensures
                failure is Some ==> has_duplicate(ids),
                failure is Some ==> is_first_repeat(ids, k as int) && failure->Some_0->DuplicateId_0@ == ids[k as int],
                failure is None ==> k == all.len() && keys_of(config.plugins@) == ids.take(k as int)
                    && keys_of(config.plugin_paths@) == keys_of(config.plugins@) && config.wf()
                    && !has_duplicate(ids.take(k as int)),
                failure is None ==> forall|i: int|
                    0 <= i < k ==> (#[trigger] config.plugins@[i]).1 == all[i].meta
                        && config.plugin_paths@[i].1@ == all[i].path@,
            decreases rest@.len(),
        {
            let entry = rest.remove(0);
            proof {
                assert(entry == all[k as int]);
                assert(rest@ =~= all.skip(k + 1));
            }
            let ghost before_plugins = config.plugins@;
            let ghost before_paths = config.plugin_paths@;
            let PluginEntry { path, meta } = entry;
            match config.register_plugin(path, meta) {
                Err(e) => {
                    proof {
                        let j = choose|j: int|
                            0 <= j < keys_of(config.plugins@).len() && keys_of(config.plugins@)[j] == ids[k as int];
                        assert(ids.take(k as int)[j] == ids[j]);
                        assert(0 <= j < k as int && ids[j] == ids[k as int]);
                        assert(k < all.len());
                        assert(ids.take(k as int).contains(ids[k as int]));
                        assert(is_first_repeat(ids, k as int));
                    }
                    failure = Some(e);
                    break;
                },
                Ok(()) => {},
            }
            proof {
                assert(ids.take(k + 1) =~= ids.take(k as int).push(ids[k as int]));
                assert(keys_of(config.plugins@) =~= ids.take(k + 1));
                assert(unique(ids.take(k + 1)));
                assert forall|i: int| 0 <= i < k + 1 implies (#[trigger] config.plugins@[i]).1 == all[i].meta
                    && config.plugin_paths@[i].1@ == all[i].path@ by {
                    if i < k {
                        assert(config.plugins@.drop_last()[i] == config.plugins@[i]);
                        assert(config.plugin_paths@.drop_last()[i] == config.plugin_paths@[i]);
                        assert(before_plugins[i] == config.plugins@[i]);
                        assert(before_paths[i] == config.plugin_paths@[i]);
                    }
                }
            }
            k = k + 1;
        }
        match failure {
            Some(e) => {
                assert(is_first_repeat(ids, k as int));
                Err(e)
            },
            None => {
                proof {
                    assert(ids.take(k as int) =~= ids);
                }
                Ok(config)
            },
        }
    }

    /// Sets the manifest of plugin `id`, replacing the one it had.
    pub fn merge_plugin_config(&mut self, id: String, meta: PluginMeta)
        requires
            old(self).wf(),
        ensures
            final(self).wf(),
            final(self).plugin_paths@ == old(self).plugin_paths@,
            keys_of(old(self).plugins@).contains(id@) ==> keys_of(final(self).plugins@) == keys_of(old(self).plugins@),
            !keys_of(old(self).plugins@).contains(id@) ==> keys_of(final(self).plugins@) == keys_of(old(self).plugins@).push(id@),
            exists|i: int| 0 <= i < final(self).plugins@.len() && #[trigger] final(self).plugins@[i].0@ == id@ && final(self).plugins@[i].1 == meta,
            keys_of(old(self).plugins@).contains(id@) ==> final(self).plugins@.len() == old(self).plugins@.len(),
            !keys_of(old(self).plugins@).contains(id@) ==> final(self).plugins@.len() == old(self).plugins@.len() + 1,
            forall|i: int|
                0 <= i < old(self).plugins@.len() && (#[trigger] old(self).plugins@[i]).0@ != id@ ==> final(self).plugins@[i]
                    == old(self).plugins@[i],
    {
        let ghost old_plugins = self.plugins@;
        match find_key(&self.plugins, &id) {
            Some(i) => {
                self.plugins.set(i, (id, meta));
                proof {
                    assert(keys_of(self.plugins@) =~= keys_of(old_plugins));
                    assert(self.plugins@[i as int].1 == meta);
                    assert(self.plugins@[i as int].0@ == id@);
                }
            },
            None => {
                self.plugins.push((id, meta));
                proof {
                    assert(keys_of(self.plugins@) =~= keys_of(old_plugins).push(id@));
                    assert(self.plugins@[old_plugins.len() as int].1 == meta);
                    assert(self.plugins@[old_plugins.len() as int].0@ == id@);
                    assert forall|i: int, j: int|
                        0 <= i < j < keys_of(self.plugins@).len() implies keys_of(self.plugins@)[i] != keys_of(
                        self.plugins@,
                    )[j] by {
                        assert(keys_of(old_plugins)[i] == keys_of(self.plugins@)[i]);
                        if j < old_plugins.len() {
                            assert(keys_of(old_plugins)[j] == keys_of(self.plugins@)[j]);
                        } else {
                            assert(keys_of(old_plugins).contains(keys_of(old_plugins)[i]));
                        }
                    }
                }
            },
        }
    }

    /// The directory of plugin `id`, if it was found on disk.
    pub fn path_of(&self, id: &String) -> (r: Option<String>)
        ensures
            r is None <==> !keys_of(self.plugin_paths@).contains(id@),
            r is Some ==> exists|i: int|
                0 <= i < self.plugin_paths@.len() && #[trigger] self.plugin_paths@[i].0@ == id@
                    && self.plugin_paths@[i].1@ == r->Some_0@,
    {
        match find_key(&self.plugin_paths, id) {
            Some(i) => {
                let p = self.plugin_paths[i].1.clone();
                Some(p)
            },
            None => None,
        }
    }
}

} // verus!
