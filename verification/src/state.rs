//! Sync state kept per knowledge base: when it was last synced, the last
//! ingestion job, and what was known of each file. Reading and writing the
//! state file is done outside the library; here is the table itself.
use vstd::prelude::*;

use crate::config::{clone_opt, opt_str};
use crate::paths::{path_join, spec_join};
use crate::text::{chars_eq, string_of, to_chars};

verus! {

/// What is known of one synced file. `last_modified` is an RFC 3339
/// timestamp, as the state file stores it.
#[derive(Debug)]
pub struct FileState {
    pub content_hash: String,
    pub s3_key: String,
    pub last_modified: String,
}

/// The state of one knowledge base. Timestamps are RFC 3339 text; `files`
/// maps a path to what was known of that file.
#[derive(Debug)]
pub struct KbState {
    pub last_sync: Option<String>,
    pub last_ingestion_job_id: Option<String>,
    pub last_ingestion_status: Option<String>,
    pub files: Vec<(String, FileState)>,
}

/// The state of every knowledge base, each under its name.
#[derive(Debug)]
pub struct State {
    pub version: u32,
    pub knowledge_bases: Vec<(String, KbState)>,
}

impl View for FileState {
    type V = (Seq<char>, Seq<char>, Seq<char>);

    open spec fn view(&self) -> Self::V {
        (self.content_hash@, self.s3_key@, self.last_modified@)
    }
}

impl View for KbState {
    type V = (Option<Seq<char>>, Option<Seq<char>>, Option<Seq<char>>, Seq<(Seq<char>, (Seq<char>, Seq<char>, Seq<char>))>);

    open spec fn view(&self) -> Self::V {
        (
            opt_str(self.last_sync),
            opt_str(self.last_ingestion_job_id),
            opt_str(self.last_ingestion_status),
            files_view(self.files@),
        )
    }
}

/// The files of a knowledge base as (path, file state) views.
pub open spec fn files_view(fs: Seq<(String, FileState)>) -> Seq<(Seq<char>, (Seq<char>, Seq<char>, Seq<char>))> {
    Seq::new(fs.len(), |i: int| (fs[i].0@, fs[i].1@))
}

/// The state of a knowledge base nothing is known of.
pub open spec fn empty_kb_view() -> (Option<Seq<char>>, Option<Seq<char>>, Option<Seq<char>>, Seq<(Seq<char>, (Seq<char>, Seq<char>, Seq<char>))>) {
    (None, None, None, Seq::empty())
}

/// The table of knowledge bases as (name, state) views.
pub open spec fn entries_view(es: Seq<(String, KbState)>) -> Seq<(Seq<char>, (Option<Seq<char>>, Option<Seq<char>>, Option<Seq<char>>, Seq<(Seq<char>, (Seq<char>, Seq<char>, Seq<char>))>))> {
    Seq::new(es.len(), |i: int| (es[i].0@, es[i].1@))
}

/// No name occurs twice in the table.
pub open spec fn names_distinct<V>(es: Seq<(Seq<char>, V)>) -> bool {
    forall|i: int, j: int| 0 <= i < j < es.len() ==> #[trigger] es[i].0 != #[trigger] es[j].0
}

/// The position of the first entry named `name`, or -1.
pub open spec fn entry_index<V>(es: Seq<(Seq<char>, V)>, name: Seq<char>) -> int
    decreases es.len(),
{
    if es.len() == 0 {
        -1
    } else {
        let r = entry_index(es.drop_last(), name);
        if r >= 0 {
            r
        } else if es.last().0 == name {
            es.len() - 1
        } else {
            -1
        }
    }
}

/// What the table holds under `name`.
pub open spec fn lookup<V>(es: Seq<(Seq<char>, V)>, name: Seq<char>) -> Option<V> {
    let i = entry_index(es, name);
    if i >= 0 {
        Some(es[i].1)
    } else {
        None
    }
}

/// The table after `v` is stored under `name`: the entry of that name is
/// replaced where there is one, else the new entry goes last.
pub open spec fn store<V>(es: Seq<(Seq<char>, V)>, name: Seq<char>, v: V) -> Seq<(Seq<char>, V)> {
    let i = entry_index(es, name);
    if i >= 0 {
        es.update(i, (name, v))
    } else {
        es.push((name, v))
    }
}

/// `entry_index` finds an entry of that name before which none has it, or
/// finds none.
pub proof fn lemma_entry_index<V>(es: Seq<(Seq<char>, V)>, name: Seq<char>)
    ensures
        -1 <= entry_index(es, name) < es.len(),
        entry_index(es, name) >= 0 ==> es[entry_index(es, name)].0 == name,
        forall|j: int| 0 <= j < es.len() && (entry_index(es, name) < 0 || j < entry_index(es, name))
            ==> #[trigger] es[j].0 != name,
    decreases es.len(),
{
    if es.len() > 0 {
        let d = es.drop_last();
        lemma_entry_index(d, name);
        assert forall|j: int| 0 <= j < es.len() && (entry_index(es, name) < 0 || j < entry_index(es, name))
            implies #[trigger] es[j].0 != name by {
            if j < d.len() {
                assert(d[j] == es[j]);
            } else {
                assert(es[j] == es.last());
            }
        }
    }
}

/// The entry index is determined by where the name occurs first.
proof fn lemma_entry_index_is<V>(es: Seq<(Seq<char>, V)>, name: Seq<char>, i: int)
    requires
        0 <= i < es.len(),
        es[i].0 == name,
        forall|j: int| 0 <= j < i ==> #[trigger] es[j].0 != name,
    ensures
        entry_index(es, name) == i,
{
    lemma_entry_index(es, name);
    let r = entry_index(es, name);
    if r < 0 {
        assert(es[i].0 != name);
    } else if r < i {
        assert(es[r].0 != name);
    } else if r > i {
        assert(es[i].0 != name);
    }
}

/// The position of no entry of that name.
proof fn lemma_entry_index_none<V>(es: Seq<(Seq<char>, V)>, name: Seq<char>)
    requires
        forall|j: int| 0 <= j < es.len() ==> #[trigger] es[j].0 != name,
    ensures
        entry_index(es, name) == -1,
{
    lemma_entry_index(es, name);
    let r = entry_index(es, name);
    if r >= 0 {
        assert(es[r].0 != name);
    }
}

/// Law: a state table reads back what was last stored under a name, a store
/// under one name leaves what every other name reads unchanged, and a table
/// in which no name occurs twice stays so.
pub proof fn law_state_store<V>(es: Seq<(Seq<char>, V)>, name: Seq<char>, v: V, other: Seq<char>)
    ensures
        lookup(store(es, name, v), name) == Some(v),
        other != name ==> lookup(store(es, name, v), other) == lookup(es, other),
        names_distinct(es) ==> names_distinct(store(es, name, v)),
{
    let s = store(es, name, v);
    lemma_entry_index(es, name);
    lemma_entry_index(es, other);
    let i = entry_index(es, name);
    if i >= 0 {
        assert(s.len() == es.len());
        lemma_entry_index_is(s, name, i);
        if other != name {
            let k = entry_index(es, other);
            if k >= 0 {
                assert forall|j: int| 0 <= j < k implies #[trigger] s[j].0 != other by {
                    if j != i {
                        assert(s[j] == es[j]);
                    }
                }
                assert(s[k] == es[k]);
                lemma_entry_index_is(s, other, k);
            } else {
                assert forall|j: int| 0 <= j < s.len() implies #[trigger] s[j].0 != other by {
                    if j != i {
                        assert(s[j] == es[j]);
                    }
                }
                lemma_entry_index_none(s, other);
            }
        }
        if names_distinct(es) {
            assert forall|a: int, b: int| 0 <= a < b < s.len() implies #[trigger] s[a].0 != #[trigger] s[b].0 by {
                if a != i && b != i {
                    assert(s[a] == es[a] && s[b] == es[b]);
                } else if a == i {
                    assert(s[b] == es[b]);
                    assert(es[i].0 != es[b].0);
                } else {
                    assert(s[a] == es[a]);
                    assert(es[a].0 != es[i].0);
                }
            }
        }
    } else {
        let n = es.len() as int;
        assert(s.len() == n + 1);
        assert forall|j: int| 0 <= j < n implies #[trigger] s[j].0 != name by {
            assert(s[j] == es[j]);
        }
        lemma_entry_index_is(s, name, n);
        if other != name {
            let k = entry_index(es, other);
            if k >= 0 {
                assert forall|j: int| 0 <= j < k implies #[trigger] s[j].0 != other by {
                    assert(s[j] == es[j]);
                }
                assert(s[k] == es[k]);
                lemma_entry_index_is(s, other, k);
            } else {
                assert forall|j: int| 0 <= j < s.len() implies #[trigger] s[j].0 != other by {
                    if j < n {
                        assert(s[j] == es[j]);
                    }
                }
                lemma_entry_index_none(s, other);
            }
        }
        if names_distinct(es) {
            assert forall|a: int, b: int| 0 <= a < b < s.len() implies #[trigger] s[a].0 != #[trigger] s[b].0 by {
                assert(s[a] == es[a]);
                if b < n {
                    assert(s[b] == es[b]);
                }
            }
        }
    }
}

/// The state file of a configuration directory:
/// `<config_dir>/.brainjar/state.json`.
pub fn state_path(config_dir: &str) -> (r: String)
    ensures
        r@ == spec_join(spec_join(config_dir@, ".brainjar"@), "state.json"@),
{
    let d = path_join(config_dir, ".brainjar");
    path_join(d.as_str(), "state.json")
}

impl FileState {
    /// A copy of this file state.
    pub fn copy(&self) -> (r: FileState)
        ensures
            r@ == self@,
    {
        FileState {
            content_hash: self.content_hash.clone(),
            s3_key: self.s3_key.clone(),
            last_modified: self.last_modified.clone(),
        }
    }
}

impl Default for KbState {
    fn default() -> (r: KbState)
        ensures
            r@ == empty_kb_view(),
    {
        KbState { last_sync: None, last_ingestion_job_id: None, last_ingestion_status: None, files: Vec::new() }
    }
}

impl KbState {
    /// A copy of this knowledge base's state.
    pub fn copy(&self) -> (r: KbState)
        ensures
            r@ == self@,
    {
        let mut files: Vec<(String, FileState)> = Vec::new();
        let mut k: usize = 0;
        while k < self.files.len()
            invariant
                k <= self.files.len(),
                files.len() == k,
                files_view(files@) == files_view(self.files@).take(k as int),
            decreases self.files.len() - k,
        {
            let ghost prev = files@;
            let path = self.files[k].0.clone();
            let fs = self.files[k].1.copy();
            files.push((path, fs));
            proof {
                let a = files_view(files@);
                let b = files_view(self.files@).take(k as int + 1);
                assert forall|j: int| 0 <= j < a.len() implies a[j] == b[j] by {
                    if j < k {
                        assert(files@[j] == prev[j]);
                        assert(files_view(prev)[j] == files_view(self.files@).take(k as int)[j]);
                    }
                }
                assert(a =~= b);
            }
            k = k + 1;
        }
        assert(files_view(self.files@).take(self.files.len() as int) == files_view(self.files@));
        KbState {
            last_sync: clone_opt(&self.last_sync),
            last_ingestion_job_id: clone_opt(&self.last_ingestion_job_id),
            last_ingestion_status: clone_opt(&self.last_ingestion_status),
            files,
        }
    }
}

impl Default for State {
    fn default() -> (r: State)
        ensures
            r.version == 0,
            r.knowledge_bases@.len() == 0,
    {
        State { version: 0, knowledge_bases: Vec::new() }
    }
}

impl State {
    /// No knowledge base occurs twice in the table.
    pub open spec fn wf(&self) -> bool {
        names_distinct(entries_view(self.knowledge_bases@))
    }

    /// The state of a configuration directory before anything was saved:
    /// version 1, no knowledge base.
    pub fn initial() -> (r: State)
        ensures
            r.version == 1,
            r.knowledge_bases@.len() == 0,
            r.wf(),
    {
        State { version: 1, knowledge_bases: Vec::new() }
    }

    fn find(&self, kb_name: &str) -> (r: Option<usize>)
        ensures
            match r {
                Some(i) => i < self.knowledge_bases.len()
                    && i as int == entry_index(entries_view(self.knowledge_bases@), kb_name@),
                None => entry_index(entries_view(self.knowledge_bases@), kb_name@) == -1,
            },
    {
        let ghost ev = entries_view(self.knowledge_bases@);
        let nc = to_chars(kb_name);
        let mut k: usize = 0;
        while k < self.knowledge_bases.len()
            invariant
                k <= self.knowledge_bases.len(),
                ev == entries_view(self.knowledge_bases@),
                nc@ == kb_name@,
                forall|j: int| 0 <= j < k ==> #[trigger] ev[j].0 != kb_name@,
            decreases self.knowledge_bases.len() - k,
        {
            let kc = to_chars(self.knowledge_bases[k].0.as_str());
            if chars_eq(&kc, &nc) {
                proof {
                    lemma_entry_index_is(ev, kb_name@, k as int);
                }
                return Some(k);
            }
            k = k + 1;
        }
        proof {
            lemma_entry_index_none(ev, kb_name@);
        }
        None
    }

    /// The state of the named knowledge base; an empty state when it has
    /// none.
    pub fn kb_state(&self, kb_name: &str) -> (r: KbState)
        ensures
            r@ == match lookup(entries_view(self.knowledge_bases@), kb_name@) {
                Some(v) => v,
                None => empty_kb_view(),
            },
    {
        match self.find(kb_name) {
            Some(i) => self.knowledge_bases[i].1.copy(),
            None => KbState::default(),
        }
    }

    /// Stores the state of the named knowledge base, replacing what it had.
    pub fn set_kb_state(&mut self, kb_name: &str, kb_state: KbState)
        ensures
            final(self).version == old(self).version,
            entries_view(final(self).knowledge_bases@)
                == store(entries_view(old(self).knowledge_bases@), kb_name@, kb_state@),
            old(self).wf() ==> final(self).wf(),
    {
        let ghost old_ev = entries_view(self.knowledge_bases@);
        let ghost kv = kb_state@;
        let name = string_of(kb_name);
        match self.find(kb_name) {
            Some(i) => {
                self.knowledge_bases.set(i, (name, kb_state));
                assert(entries_view(self.knowledge_bases@) =~= old_ev.update(i as int, (kb_name@, kv)));
            }
            None => {
                self.knowledge_bases.push((name, kb_state));
                assert(entries_view(self.knowledge_bases@) =~= old_ev.push((kb_name@, kv)));
            }
        }
        proof {
            law_state_store(old_ev, kb_name@, kv, kb_name@);
        }
    }
}

} // verus!
