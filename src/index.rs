//! The cross index between playlists and the files they list.
use vstd::prelude::*;
use crate::model::Playlist;
use crate::order::views;

verus! {

/// The playlists that list one file.
#[derive(Debug)]
pub struct FileEntry {
    pub file: String,
    pub playlists: Vec<String>,
}

impl FileEntry {
    pub open spec fn names(&self) -> Seq<Seq<char>> {
        views(self.playlists@)
    }
}

/// Both directions between playlist names and files: each playlist with its
/// files as given, and for each file the names of the playlists that list it.
#[derive(Debug)]
pub struct PlaylistIndex {
    pub by_name: Vec<Playlist>,
    pub by_file: Vec<FileEntry>,
}

/// Some playlist named `name` in `pls` lists `file`.
pub open spec fn listed_in(pls: Seq<Playlist>, name: Seq<char>, file: Seq<char>) -> bool {
    exists|q: int|
        0 <= q < pls.len() && pls[q].name@ == name && #[trigger] views(pls[q].files@).contains(
            file,
        )
}

/// No file has two entries, and no entry names a playlist twice.
pub open spec fn entries_wf(e: Seq<FileEntry>) -> bool {
    &&& forall|i: int, j: int|
        0 <= i < j < e.len() ==> (#[trigger] e[i]).file@ != (#[trigger] e[j]).file@
    &&& forall|k: int| 0 <= k < e.len() ==> (#[trigger] e[k]).names().no_duplicates()
}

/// The entry of `file` names `name`.
pub open spec fn entry_has(e: Seq<FileEntry>, file: Seq<char>, name: Seq<char>) -> bool {
    exists|k: int| 0 <= k < e.len() && e[k].file@ == file && (#[trigger] e[k]).names().contains(name)
}

impl PlaylistIndex {
    pub open spec fn wf(&self) -> bool {
        entries_wf(self.by_file@)
    }

    /// The names of the playlists that list `file`, in the index's order.
    pub open spec fn names_of(&self, file: Seq<char>) -> Seq<Seq<char>> {
        if exists|k: int| 0 <= k < self.by_file@.len() && (#[trigger] self.by_file@[k]).file@ == file {
            let k = choose|k: int|
                0 <= k < self.by_file@.len() && (#[trigger] self.by_file@[k]).file@ == file;
            self.by_file@[k].names()
        } else {
            Seq::empty()
        }
    }

    /// The entry of `file`, where it has one, is what `names_of` reads.
    pub proof fn lemma_names_of(&self, file: Seq<char>)
        requires
            self.wf(),
        ensures
            forall|k: int|
                0 <= k < self.by_file@.len() && (#[trigger] self.by_file@[k]).file@ == file
                    ==> self.names_of(file) == self.by_file@[k].names(),
            forall|n: Seq<char>|
                #[trigger] self.names_of(file).contains(n) <==> entry_has(self.by_file@, file, n),
            self.names_of(file).no_duplicates(),
    {
        let e = self.by_file@;
        if exists|k: int| 0 <= k < e.len() && (#[trigger] e[k]).file@ == file {
            let k = choose|k: int| 0 <= k < e.len() && (#[trigger] e[k]).file@ == file;
            assert forall|j: int| 0 <= j < e.len() && (#[trigger] e[j]).file@ == file implies j
                == k by {
                if j < k {
                    assert(e[j].file@ != e[k].file@);
                } else if k < j {
                    assert(e[k].file@ != e[j].file@);
                }
            }
            assert(self.names_of(file) == e[k].names());
        }
    }
}

/// Where the entry of `file` stands, if it has one.
fn find_entry(entries: &Vec<FileEntry>, file: &String) -> (r: Option<usize>)
    ensures
        match r {
            Some(k) => k < entries@.len() && entries@[k as int].file@ == file@,
            None => forall|k: int| 0 <= k < entries@.len() ==> (#[trigger] entries@[k]).file@ != file@,
        },
{
    let mut i: usize = 0;
    while i < entries.len()
        invariant
            i <= entries@.len(),
            forall|k: int| 0 <= k < i ==> (#[trigger] entries@[k]).file@ != file@,
        decreases entries@.len() - i,
    {
        if entries[i].file == *file {
            return Some(i);
        }
        i = i + 1;
    }
    None
}

/// Whether `names` holds `name`.
fn contains_name(names: &Vec<String>, name: &String) -> (r: bool)
    ensures
        r == views(names@).contains(name@),
{
    let mut i: usize = 0;
    while i < names.len()
        invariant
            i <= names@.len(),
            forall|k: int| 0 <= k < i ==> (#[trigger] names@[k])@ != name@,
        decreases names@.len() - i,
    {
        if names[i] == *name {
            assert(views(names@)[i as int] == name@);
            return true;
        }
        i = i + 1;
    }
    assert forall|k: int| 0 <= k < views(names@).len() implies views(names@)[k] != name@ by {
        assert(names@[k]@ != name@);
    }
    false
}

/// Records that the playlist `name` lists `file`.
fn add_pair(entries: &mut Vec<FileEntry>, file: &String, name: &String)
    requires
        entries_wf(old(entries)@),
    ensures
        entries_wf(final(entries)@),
        forall|f: Seq<char>, n: Seq<char>|
            #[trigger] entry_has(final(entries)@, f, n) <==> (entry_has(old(entries)@, f, n) || (f
                == file@ && n == name@)),
{
    let ghost e0 = entries@;
    match find_entry(entries, file) {
        Some(k) => {
            if contains_name(&entries[k].playlists, name) {
                assert(entry_has(e0, file@, name@)) by {
                    assert(e0[k as int].names().contains(name@));
                }
            } else {
                let mut e = entries.remove(k);
                let ghost before = e.names();
                e.playlists.push(name.clone());
                assert(e.names() =~= before.push(name@));
                entries.insert(k, e);
                let ghost e1 = entries@;
                assert(e1 =~= e0.update(k as int, e1[k as int]));
                assert forall|f: Seq<char>, n: Seq<char>|
                    #[trigger] entry_has(e1, f, n) <==> (entry_has(e0, f, n) || (f == file@ && n
                        == name@)) by {
                    if entry_has(e1, f, n) {
                        let j = choose|j: int|
                            0 <= j < e1.len() && e1[j].file@ == f && (#[trigger] e1[j]).names().contains(n);
                        if j != k {
                            assert(e0[j] == e1[j]);
                        } else if n != name@ {
                            let i = choose|i: int| 0 <= i < e1[j].names().len() && e1[j].names()[i] == n;
                            assert(before[i] == n);
                            assert(e0[j].names().contains(n));
                        }
                    }
                    if entry_has(e0, f, n) {
                        let j = choose|j: int|
                            0 <= j < e0.len() && e0[j].file@ == f && (#[trigger] e0[j]).names().contains(n);
                        if j == k {
                            let i = choose|i: int| 0 <= i < before.len() && before[i] == n;
                            assert(e1[j].names()[i] == n);
                        } else {
                            assert(e1[j] == e0[j]);
                        }
                    }
                    if f == file@ && n == name@ {
                        assert(e1[k as int].names()[before.len() as int] == n);
                    }
                }
                assert forall|j: int| 0 <= j < e1.len() implies (#[trigger] e1[j]).names().no_duplicates() by {
                    if j == k {
                        assert forall|a: int, b: int| 0 <= a < b < e1[j].names().len() implies e1[j].names()[a] != e1[j].names()[b] by {
                            if b == before.len() {
                                assert(before.contains(before[a]));
                            }
                        }
                    }
                }
            }
        },
        None => {
            let mut names: Vec<String> = Vec::new();
            names.push(name.clone());
            let entry = FileEntry { file: file.clone(), playlists: names };
            assert(entry.names() =~= seq![name@]);
            entries.push(entry);
            let ghost e1 = entries@;
            assert forall|f: Seq<char>, n: Seq<char>|
                #[trigger] entry_has(e1, f, n) <==> (entry_has(e0, f, n) || (f == file@ && n
                    == name@)) by {
                if entry_has(e1, f, n) {
                    let j = choose|j: int|
                        0 <= j < e1.len() && e1[j].file@ == f && (#[trigger] e1[j]).names().contains(n);
                    if j < e0.len() {
                        assert(e0[j] == e1[j]);
                    }
                }
                if entry_has(e0, f, n) {
                    let j = choose|j: int|
                        0 <= j < e0.len() && e0[j].file@ == f && (#[trigger] e0[j]).names().contains(n);
                    assert(e1[j] == e0[j]);
                }
                if f == file@ && n == name@ {
                    assert(e1[e0.len() as int].names()[0] == n);
                }
            }
        },
    }
}

/// Builds the index of `playlists`. The names of the playlists are taken as
/// unique; a file that a playlist lists twice is recorded for it once.
pub fn index_playlists(playlists: Vec<Playlist>) -> (r: PlaylistIndex)
    ensures
        r.wf(),
        r.by_name@ == playlists@,
        forall|file: Seq<char>, name: Seq<char>|
            #[trigger] r.names_of(file).contains(name) <==> listed_in(playlists@, name, file),
        forall|file: Seq<char>| (#[trigger] r.names_of(file)).no_duplicates(),
        forall|file: Seq<char>, name: Seq<char>|
            listed_in(playlists@, name, file) ==> #[trigger] r.names_of(file).to_multiset().count(
                name,
            ) == 1,
{
    let mut entries: Vec<FileEntry> = Vec::new();
    let mut q: usize = 0;
    while q < playlists.len()
        invariant
            q <= playlists@.len(),
            entries_wf(entries@),
            forall|f: Seq<char>, n: Seq<char>|
                #[trigger] entry_has(entries@, f, n) <==> listed_in(
                    playlists@.subrange(0, q as int),
                    n,
                    f,
                ),
        decreases playlists@.len() - q,
    {
        let p = &playlists[q];
        let ghost done = playlists@.subrange(0, q as int);
        let ghost fv = views(p.files@);
        let mut t: usize = 0;
        while t < p.files.len()
            invariant
                q < playlists@.len(),
                p == playlists@[q as int],
                done == playlists@.subrange(0, q as int),
                fv == views(p.files@),
                t <= p.files@.len(),
                entries_wf(entries@),
                forall|f: Seq<char>, n: Seq<char>|
                    #[trigger] entry_has(entries@, f, n) <==> (listed_in(done, n, f) || (n
                        == p.name@ && fv.subrange(0, t as int).contains(f))),
            decreases p.files@.len() - t,
        {
            add_pair(&mut entries, &p.files[t], &p.name);
            let ghost s0 = fv.subrange(0, t as int);
            let ghost s1 = fv.subrange(0, t + 1);
            assert forall|f: Seq<char>| s1.contains(f) <==> (s0.contains(f) || f == fv[t as int]) by {
                if s1.contains(f) {
                    let i = choose|i: int| 0 <= i < s1.len() && s1[i] == f;
                    if i < t {
                        assert(s0[i] == f);
                    }
                }
                if s0.contains(f) {
                    let i = choose|i: int| 0 <= i < s0.len() && s0[i] == f;
                    assert(s1[i] == f);
                }
                if f == fv[t as int] {
                    assert(s1[t as int] == f);
                }
            }
            t = t + 1;
        }
        assert(fv.subrange(0, t as int) =~= fv);
        let ghost next = playlists@.subrange(0, q + 1);
        assert forall|f: Seq<char>, n: Seq<char>|
            listed_in(next, n, f) <==> (listed_in(done, n, f) || (n == p.name@ && fv.contains(f))) by {
            if listed_in(next, n, f) {
                let j = choose|j: int|
                    0 <= j < next.len() && next[j].name@ == n && #[trigger] views(next[j].files@).contains(f);
                if j < q {
                    assert(done[j] == next[j]);
                }
            }
            if listed_in(done, n, f) {
                let j = choose|j: int|
                    0 <= j < done.len() && done[j].name@ == n && #[trigger] views(done[j].files@).contains(f);
                assert(done[j] == next[j]);
            }
            if n == p.name@ && fv.contains(f) {
                assert(next[q as int] == p);
            }
        }
        q = q + 1;
    }
    assert(playlists@.subrange(0, q as int) =~= playlists@);
    let r = PlaylistIndex { by_name: playlists, by_file: entries };
    assert forall|file: Seq<char>, name: Seq<char>|
        #[trigger] r.names_of(file).contains(name) <==> listed_in(r.by_name@, name, file) by {
        r.lemma_names_of(file);
    }
    assert forall|file: Seq<char>| (#[trigger] r.names_of(file)).no_duplicates() by {
        r.lemma_names_of(file);
    }
    assert forall|file: Seq<char>, name: Seq<char>|
        listed_in(playlists@, name, file) implies #[trigger] r.names_of(file).to_multiset().count(
        name,
    ) == 1 by {
        broadcast use vstd::seq_lib::to_multiset_contains;

        r.lemma_names_of(file);
        r.names_of(file).lemma_multiset_has_no_duplicates();
        assert(r.names_of(file).contains(name));
        assert(r.names_of(file).to_multiset().count(name) > 0);
    }
    r
}

impl PlaylistIndex {
    /// The names of the playlists that list `file`.
    pub fn names_for(&self, file: &String) -> (r: Vec<String>)
        requires
            self.wf(),
        ensures
            views(r@) == self.names_of(file@),
    {
        let mut r: Vec<String> = Vec::new();
        match find_entry(&self.by_file, file) {
            Some(k) => {
                proof {
                    self.lemma_names_of(file@);
                }
                let names = &self.by_file[k].playlists;
                let mut i: usize = 0;
                while i < names.len()
                    invariant
                        i <= names@.len(),
                        r@.len() == i,
                        views(r@) =~= views(names@).subrange(0, i as int),
                    decreases names@.len() - i,
                {
                    let ghost r0 = r@;
                    r.push(names[i].clone());
                    assert(r@ =~= r0.push(names@[i as int]));
                    assert(views(r@).len() == i + 1);
                    assert(views(r@)[i as int] == names@[i as int]@);
                    assert forall|j: int| 0 <= j < i + 1 implies #[trigger] views(r@)[j] == views(
                        names@,
                    )[j] by {
                        if j < i {
                            assert(views(r0)[j] == views(names@).subrange(0, i as int)[j]);
                        }
                    }
                    assert(views(r@) =~= views(names@).subrange(0, i + 1));
                    i = i + 1;
                }
                assert(views(names@).subrange(0, i as int) =~= views(names@));
            },
            None => {
                assert(views(r@) =~= self.names_of(file@));
            },
        }
        r
    }
}

} // verus!
