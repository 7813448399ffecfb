//! The files that a session holds in memory, and what the guest may see of them.
use crate::text;
use crate::text::{chars_of, find_slash, insert_sorted, same_text, starts_with, trim_slashes};
use vstd::prelude::*;
use vstd::string::*;

verus! {

/// The directory under which every file of a session lives.
pub const ROOT: &'static str = "/app";

/// File contents by absolute path.
pub struct Files {
    entries: Vec<(String, String)>,
}

impl View for Files {
    type V = Map<Seq<char>, Seq<char>>;

    closed spec fn view(&self) -> Map<Seq<char>, Seq<char>> {
        Map::new(
            |path: Seq<char>| exists|i: int| self.holds_at(path, i),
            |path: Seq<char>| self.entries@[choose|i: int| self.holds_at(path, i)].1@,
        )
    }
}

impl Files {
    spec fn holds_at(&self, path: Seq<char>, i: int) -> bool {
        0 <= i < self.entries@.len() && self.entries@[i].0@ == path
    }

    /// No path occurs twice.
    pub closed spec fn wf(&self) -> bool {
        forall|i: int, j: int|
            0 <= i < j < self.entries@.len() ==> #[trigger] self.entries@[i].0@
                != #[trigger] self.entries@[j].0@
    }

    proof fn lemma_at(&self, i: int)
        requires
            self.wf(),
            0 <= i < self.entries@.len(),
        ensures
            self@.contains_key(self.entries@[i].0@),
            self@[self.entries@[i].0@] == self.entries@[i].1@,
    {
        let path = self.entries@[i].0@;
        assert(self.holds_at(path, i));
        let k = choose|k: int| self.holds_at(path, k);
        assert(self.holds_at(path, k));
        if k != i {
            assert(self.entries@[k].0@ == self.entries@[i].0@);
        }
    }

    proof fn lemma_same(&self, other: Map<Seq<char>, Seq<char>>)
        requires
            self.wf(),
            forall|i: int|
                0 <= i < self.entries@.len() ==> other.contains_key(#[trigger] self.entries@[i].0@)
                    && other[self.entries@[i].0@] == self.entries@[i].1@,
            forall|path: Seq<char>| #[trigger]
                other.contains_key(path) ==> exists|i: int| self.holds_at(path, i),
        ensures
            self@ == other,
    {
        assert forall|path: Seq<char>| #[trigger] self@.contains_key(path) implies other.contains_key(
            path,
        ) && other[path] == self@[path] by {
            let i = choose|i: int| self.holds_at(path, i);
            assert(self.holds_at(path, i));
            self.lemma_at(i);
        }
        assert(self@ =~= other);
    }

    /// No files.
    pub fn new() -> (r: Files)
        ensures
            r.wf(),
            r@ == Map::<Seq<char>, Seq<char>>::empty(),
    {
        let r: Files = Files { entries: Vec::new() };
        proof {
            r.lemma_same(Map::empty());
        }
        r
    }

    /// Where `path` stands among the entries.
    fn position(&self, path: &str) -> (r: Option<usize>)
        ensures
            match r {
                Some(i) => self.holds_at(path@, i as int),
                None => forall|i: int| !self.holds_at(path@, i),
            },
    {
        let mut i: usize = 0;
        while i < self.entries.len()
            invariant
                i <= self.entries.len(),
                forall|j: int| 0 <= j < i ==> !self.holds_at(path@, j),
            decreases self.entries.len() - i,
        {
            if same_text(self.entries[i].0.as_str(), path) {
                return Some(i);
            }
            i += 1;
        }
        None
    }

    /// The content of the file at `path`.
    pub fn get(&self, path: &str) -> (r: Option<&String>)
        requires
            self.wf(),
        ensures
            match r {
                Some(content) => self@.contains_key(path@) && self@[path@] == content@,
                None => !self@.contains_key(path@),
            },
    {
        match self.position(path) {
            Some(i) => {
                proof {
                    self.lemma_at(i as int);
                }
                Some(&self.entries[i].1)
            },
            None => None,
        }
    }

    /// Whether there is a file at `path`.
    pub fn contains(&self, path: &str) -> (r: bool)
        requires
            self.wf(),
        ensures
            r == self@.contains_key(path@),
    {
        self.get(path).is_some()
    }

    /// Puts a file at `path`, in place of one that was there; says whether one was.
    pub fn insert(&mut self, path: String, content: String) -> (existed: bool)
        requires
            old(self).wf(),
        ensures
            final(self).wf(),
            final(self)@ == old(self)@.insert(path@, content@),
            existed == old(self)@.contains_key(path@),
    {
        let ghost target = self@.insert(path@, content@);
        let ghost before = *self;
        let ghost name = path@;
        proof {
            assert forall|i: int| 0 <= i < before.entries@.len() implies before@.contains_key(
                #[trigger] before.entries@[i].0@,
            ) && before@[before.entries@[i].0@] == before.entries@[i].1@ by {
                before.lemma_at(i);
            }
        }
        match self.position(path.as_str()) {
            Some(i) => {
                self.entries[i] = (path, content);
                proof {
                    assert forall|p: Seq<char>| #[trigger] target.contains_key(p) implies exists|
                        k: int,
                    | self.holds_at(p, k) by {
                        if p == name {
                            assert(self.holds_at(p, i as int));
                        } else {
                            let k = choose|k: int| before.holds_at(p, k);
                            assert(before.holds_at(p, k));
                            assert(self.holds_at(p, k));
                        }
                    }
                    assert(before.holds_at(name, i as int));
                    self.lemma_same(target);
                }
                true
            },
            None => {
                self.entries.push((path, content));
                proof {
                    let n = before.entries@.len() as int;
                    assert forall|i: int| 0 <= i < n implies #[trigger] self.entries@[i].0@
                        != name by {
                        assert(!before.holds_at(name, i));
                    }
                    assert forall|p: Seq<char>| #[trigger] target.contains_key(p) implies exists|
                        k: int,
                    | self.holds_at(p, k) by {
                        if p == name {
                            assert(self.holds_at(p, n));
                        } else {
                            let k = choose|k: int| before.holds_at(p, k);
                            assert(before.holds_at(p, k));
                            assert(self.holds_at(p, k));
                        }
                    }
                    self.lemma_same(target);
                }
                false
            },
        }
    }

    /// Takes away the file at `path`, if there is one.
    pub fn remove(&mut self, path: &str)
        requires
            old(self).wf(),
        ensures
            final(self).wf(),
            final(self)@ == old(self)@.remove(path@),
    {
        let ghost target = self@.remove(path@);
        let ghost before = *self;
        proof {
            assert forall|i: int| 0 <= i < before.entries@.len() implies before@.contains_key(
                #[trigger] before.entries@[i].0@,
            ) && before@[before.entries@[i].0@] == before.entries@[i].1@ by {
                before.lemma_at(i);
            }
        }
        match self.position(path) {
            Some(i) => {
                let _ = self.entries.remove(i);
                proof {
                    assert(before.holds_at(path@, i as int));
                    assert forall|k: int| 0 <= k < self.entries@.len() implies self.entries@[k]
                        == before.entries@[if k < i {
                        k
                    } else {
                        k + 1
                    }] by {}
                    assert forall|p: Seq<char>| #[trigger] target.contains_key(p) implies exists|
                        k: int,
                    | self.holds_at(p, k) by {
                        let k = choose|k: int| before.holds_at(p, k);
                        assert(before.holds_at(p, k));
                        assert(self.holds_at(p, if k < i {
                            k
                        } else {
                            k - 1
                        }));
                    }
                    self.lemma_same(target);
                }
            },
            None => {
                assert(target =~= self@);
            },
        }
    }
}

/// What every path below `directory` starts with.
pub open spec fn below(directory: Seq<char>) -> Seq<char> {
    directory.push('/')
}

/// `path` is the root or lies below it.
pub open spec fn scoped(path: Seq<char>) -> bool {
    text::trimmed(path) == ROOT@ || below(ROOT@).is_prefix_of(text::trimmed(path))
}

/// `path` is a directory above the root.
pub open spec fn above_root(path: Seq<char>) -> bool {
    text::trimmed(path).len() == 0 || below(text::trimmed(path)).is_prefix_of(ROOT@)
}

/// `path` names a directory: the root, one above it, or one with a file below it.
pub open spec fn directory(files: Map<Seq<char>, Seq<char>>, path: Seq<char>) -> bool {
    ||| text::trimmed(path) == ROOT@
    ||| above_root(path)
    ||| exists|key: Seq<char>| #[trigger]
        files.contains_key(key) && below(text::trimmed(path)).is_prefix_of(key)
}

/// `name` is a single path component.
pub open spec fn component(name: Seq<char>) -> bool {
    !name.contains('/')
}

/// `key` is the file `name` directly below a directory whose paths start with `prefix`.
pub open spec fn is_file_entry(prefix: Seq<char>, key: Seq<char>, name: Seq<char>) -> bool {
    component(name) && key == prefix + name
}

/// `key` lies below the directory `name`, itself directly below a directory whose paths
/// start with `prefix`.
pub open spec fn is_directory_entry(prefix: Seq<char>, key: Seq<char>, name: Seq<char>) -> bool {
    component(name) && (prefix + below(name)).is_prefix_of(key)
}

/// A file `name` stands directly in the directory `path`.
pub open spec fn has_file(
    files: Map<Seq<char>, Seq<char>>,
    path: Seq<char>,
    name: Seq<char>,
) -> bool {
    component(name) && files.contains_key(below(text::trimmed(path)) + name)
}

/// A directory `name` stands directly in the directory `path`.
pub open spec fn has_directory(
    files: Map<Seq<char>, Seq<char>>,
    path: Seq<char>,
    name: Seq<char>,
) -> bool {
    exists|key: Seq<char>| #[trigger]
        files.contains_key(key) && is_directory_entry(below(text::trimmed(path)), key, name)
}

/// The names in a directory, each list in ascending order.
#[derive(Debug)]
pub struct Entries {
    pub files: Vec<String>,
    pub directories: Vec<String>,
}

/// `files` and `directories` are the names in the directory `path`, without repetition and
/// in ascending order.
pub open spec fn listing(
    map: Map<Seq<char>, Seq<char>>,
    path: Seq<char>,
    files: Seq<Seq<char>>,
    directories: Seq<Seq<char>>,
) -> bool {
    &&& text::ascending(files)
    &&& text::ascending(directories)
    &&& forall|name: Seq<char>| files.contains(name) <==> #[trigger] has_file(map, path, name)
    &&& forall|name: Seq<char>|
        directories.contains(name) <==> #[trigger] has_directory(map, path, name)
}

/// Whether `path` is the root or lies below it.
pub fn in_scope(path: &str) -> (r: bool)
    ensures
        r == scoped(path@),
{
    let p: Vec<char> = trim_slashes(path);
    let mut root: Vec<char> = chars_of(ROOT);
    let same: bool = starts_with(&p, &root) && starts_with(&root, &p);
    proof {
        if same {
            assert(p@ =~= ROOT@);
        } else if p@ == ROOT@ {
            assert(p@ =~= ROOT@.subrange(0, p@.len() as int));
        }
    }
    root.push('/');
    same || starts_with(&p, &root)
}

/// Whether `path` is a directory above the root.
pub fn is_root_ancestor(path: &str) -> (r: bool)
    ensures
        r == above_root(path@),
{
    let mut p: Vec<char> = trim_slashes(path);
    if p.len() == 0 {
        return true;
    }
    p.push('/');
    starts_with(&chars_of(ROOT), &p)
}

impl Files {
    /// Whether `path` names a directory.
    pub fn directory_exists(&self, path: &str) -> (r: bool)
        requires
            self.wf(),
        ensures
            r == directory(self@, path@),
    {
        let mut p: Vec<char> = trim_slashes(path);
        let root: Vec<char> = chars_of(ROOT);
        if is_root_ancestor(path) {
            return true;
        }
        if starts_with(&p, &root) && starts_with(&root, &p) {
            assert(p@ =~= ROOT@);
            return true;
        }
        proof {
            if p@ == ROOT@ {
                assert(p@ =~= ROOT@.subrange(0, p@.len() as int));
            }
        }
        p.push('/');
        let mut i: usize = 0;
        while i < self.entries.len()
            invariant
                self.wf(),
                i <= self.entries.len(),
                p@ == below(text::trimmed(path@)),
                forall|j: int| 0 <= j < i ==> !p@.is_prefix_of(#[trigger] self.entries@[j].0@),
            decreases self.entries.len() - i,
        {
            if starts_with(&chars_of(self.entries[i].0.as_str()), &p) {
                proof {
                    self.lemma_at(i as int);
                }
                return true;
            }
            i += 1;
        }
        proof {
            assert forall|key: Seq<char>| #[trigger] self@.contains_key(key) implies !p@.is_prefix_of(
                key,
            ) by {
                let k = choose|k: int| self.holds_at(key, k);
                assert(self.holds_at(key, k));
            }
        }
        false
    }

    /// The names of the files and directories directly in the directory `path`.
    pub fn accessible_entries(&self, path: &str) -> (r: Entries)
        requires
            self.wf(),
        ensures
            listing(self@, path@, text::views(r.files@), text::views(r.directories@)),
    {
        let mut prefix: Vec<char> = trim_slashes(path);
        prefix.push('/');
        let mut files: Vec<String> = Vec::new();
        let mut directories: Vec<String> = Vec::new();
        let mut i: usize = 0;
        while i < self.entries.len()
            invariant
                i <= self.entries.len(),
                prefix@ == below(text::trimmed(path@)),
                text::ascending(text::views(files@)),
                text::ascending(text::views(directories@)),
                forall|name: Seq<char>| #[trigger]
                    text::views(files@).to_set().contains(name) <==> exists|j: int|
                        0 <= j < i && is_file_entry(prefix@, #[trigger] self.entries@[j].0@, name),
                forall|name: Seq<char>| #[trigger]
                    text::views(directories@).to_set().contains(name) <==> exists|j: int|
                        0 <= j < i && is_directory_entry(
                            prefix@,
                            #[trigger] self.entries@[j].0@,
                            name,
                        ),
            decreases self.entries.len() - i,
        {
            let key: &String = &self.entries[i].0;
            let chars: Vec<char> = chars_of(key.as_str());
            let from: usize = prefix.len();
            if starts_with(&chars, &prefix) {
                match find_slash(&chars, from) {
                    Some(at) => {
                        let name: String = key.as_str().substring_char(from, at).to_owned();
                        proof {
                            lemma_directory_entry(prefix@, key@, at as int);
                        }
                        insert_sorted(&mut directories, name);
                    },
                    None => {
                        let name: String = key.as_str().substring_char(from, chars.len()).to_owned();
                        proof {
                            lemma_file_entry(prefix@, key@);
                        }
                        insert_sorted(&mut files, name);
                    },
                }
            } else {
                proof {
                    lemma_no_entry(prefix@, key@);
                }
            }
            i += 1;
        }
        let r: Entries = Entries { files, directories };
        proof {
            assert forall|name: Seq<char>|
                text::views(r.files@).contains(name) <==> #[trigger] has_file(
                    self@,
                    path@,
                    name,
                ) by {
                assert(text::views(r.files@).to_set().contains(name) == text::views(
                    r.files@,
                ).contains(name));
                if has_file(self@, path@, name) {
                    let key = prefix@ + name;
                    let k = choose|k: int| self.holds_at(key, k);
                    assert(self.holds_at(key, k));
                    assert(is_file_entry(prefix@, self.entries@[k].0@, name));
                }
                if text::views(r.files@).contains(name) {
                    let k = choose|k: int|
                        0 <= k < self.entries@.len() && is_file_entry(
                            prefix@,
                            #[trigger] self.entries@[k].0@,
                            name,
                        );
                    self.lemma_at(k);
                }
            }
            assert forall|name: Seq<char>|
                text::views(r.directories@).contains(name) <==> #[trigger] has_directory(
                    self@,
                    path@,
                    name,
                ) by {
                assert(text::views(r.directories@).to_set().contains(name) == text::views(
                    r.directories@,
                ).contains(name));
                if has_directory(self@, path@, name) {
                    let key = choose|key: Seq<char>| #[trigger]
                        self@.contains_key(key) && is_directory_entry(prefix@, key, name);
                    let k = choose|k: int| self.holds_at(key, k);
                    assert(self.holds_at(key, k));
                    assert(is_directory_entry(prefix@, self.entries@[k].0@, name));
                }
                if text::views(r.directories@).contains(name) {
                    let k = choose|k: int|
                        0 <= k < self.entries@.len() && is_directory_entry(
                            prefix@,
                            #[trigger] self.entries@[k].0@,
                            name,
                        );
                    self.lemma_at(k);
                }
            }
        }
        r
    }
}

/// A key whose first slash behind `prefix` stands at `at` lies in one directory entry
/// and is no file entry.
proof fn lemma_directory_entry(prefix: Seq<char>, key: Seq<char>, at: int)
    requires
        prefix.is_prefix_of(key),
        prefix.len() <= at < key.len(),
        key[at] == '/',
        forall|j: int| prefix.len() <= j < at ==> key[j] != '/',
    ensures
        forall|name: Seq<char>| #[trigger]
            is_directory_entry(prefix, key, name) <==> name == key.subrange(
                prefix.len() as int,
                at,
            ),
        forall|name: Seq<char>| !#[trigger] is_file_entry(prefix, key, name),
{
    let only = key.subrange(prefix.len() as int, at);
    let n = prefix.len() as int;
    assert(prefix + below(only) =~= key.subrange(0, at + 1));
    assert(is_directory_entry(prefix, key, only));
    assert forall|name: Seq<char>| #[trigger] is_directory_entry(prefix, key, name) implies name
        == only by {
        let whole = prefix + below(name);
        assert(whole == key.subrange(0, whole.len() as int));
        assert(whole[n + name.len()] == '/');
        if n + name.len() < at {
            assert(key[n + name.len()] == '/');
        }
        if n + name.len() > at {
            assert(whole[at] == name[at - n]);
            assert(key[at] == whole[at]);
        }
        assert(name =~= only) by {
            assert forall|k: int| 0 <= k < name.len() implies name[k] == only[k] by {
                assert(whole[n + k] == name[k]);
            }
        }
    }
    assert forall|name: Seq<char>| !#[trigger] is_file_entry(prefix, key, name) by {
        if is_file_entry(prefix, key, name) {
            assert(name[at - n] == key[at]);
        }
    }
}

/// A key with no slash behind `prefix` is one file entry and lies in no directory entry.
proof fn lemma_file_entry(prefix: Seq<char>, key: Seq<char>)
    requires
        prefix.is_prefix_of(key),
        forall|j: int| prefix.len() <= j < key.len() ==> key[j] != '/',
    ensures
        forall|name: Seq<char>| #[trigger]
            is_file_entry(prefix, key, name) <==> name == key.subrange(
                prefix.len() as int,
                key.len() as int,
            ),
        forall|name: Seq<char>| !#[trigger] is_directory_entry(prefix, key, name),
{
    let n = prefix.len() as int;
    let only = key.subrange(n, key.len() as int);
    assert(key =~= prefix + only);
    assert forall|name: Seq<char>| #[trigger] is_file_entry(prefix, key, name) implies name
        == only by {
        assert(name =~= only);
    }
    assert forall|name: Seq<char>| !#[trigger] is_directory_entry(prefix, key, name) by {
        if is_directory_entry(prefix, key, name) {
            let whole = prefix + below(name);
            assert(whole[n + name.len()] == '/');
            assert(key[n + name.len()] == whole[n + name.len()]);
        }
    }
}

/// A key that does not start with `prefix` is no entry.
proof fn lemma_no_entry(prefix: Seq<char>, key: Seq<char>)
    requires
        !prefix.is_prefix_of(key),
    ensures
        forall|name: Seq<char>| !#[trigger] is_file_entry(prefix, key, name),
        forall|name: Seq<char>| !#[trigger] is_directory_entry(prefix, key, name),
{
    assert forall|name: Seq<char>| !#[trigger] is_file_entry(prefix, key, name) by {
        if is_file_entry(prefix, key, name) {
            assert(prefix =~= key.subrange(0, prefix.len() as int));
        }
    }
    assert forall|name: Seq<char>| !#[trigger] is_directory_entry(prefix, key, name) by {
        if is_directory_entry(prefix, key, name) {
            let whole = prefix + below(name);
            assert(prefix =~= key.subrange(0, prefix.len() as int)) by {
                assert forall|k: int| 0 <= k < prefix.len() implies prefix[k] == key[k] by {
                    assert(whole[k] == prefix[k]);
                }
            }
        }
    }
}

/// A directory has one listing.
pub proof fn law_one_listing(
    map: Map<Seq<char>, Seq<char>>,
    path: Seq<char>,
    files: Seq<Seq<char>>,
    directories: Seq<Seq<char>>,
    other_files: Seq<Seq<char>>,
    other_directories: Seq<Seq<char>>,
)
    requires
        listing(map, path, files, directories),
        listing(map, path, other_files, other_directories),
    ensures
        files == other_files,
        directories == other_directories,
{
    assert forall|name: Seq<char>| files.contains(name) == other_files.contains(name) by {
        assert(files.contains(name) == has_file(map, path, name));
    }
    assert forall|name: Seq<char>| directories.contains(name) == other_directories.contains(
        name,
    ) by {
        assert(directories.contains(name) == has_directory(map, path, name));
    }
    text::lemma_ascending_unique(files, other_files);
    text::lemma_ascending_unique(directories, other_directories);
}

/// Every file that a listing names exists, and every directory that it names is one.
pub proof fn law_listed_names_exist(
    map: Map<Seq<char>, Seq<char>>,
    path: Seq<char>,
    name: Seq<char>,
)
    ensures
        has_file(map, path, name) ==> map.contains_key(below(text::trimmed(path)) + name),
        has_directory(map, path, name) ==> directory(map, below(text::trimmed(path)) + name),
{
    let base = text::trimmed(path);
    let child = below(base) + name;
    if has_directory(map, path, name) {
        let key = choose|key: Seq<char>| #[trigger]
            map.contains_key(key) && is_directory_entry(below(base), key, name);
        if name.len() > 0 {
            assert(child.last() == name.last());
            assert(name.contains(name.last()));
            assert(text::trimmed(child) == child);
            assert(below(child) =~= below(base) + below(name));
        } else {
            assert(child =~= base.push('/'));
            assert(child.drop_last() =~= base);
            text::lemma_trimmed_twice(path);
            let whole = below(base) + below(name);
            assert(below(base) =~= key.subrange(0, below(base).len() as int)) by {
                assert forall|k: int| 0 <= k < below(base).len() implies below(base)[k]
                    == key[k] by {
                    assert(whole[k] == below(base)[k]);
                }
            }
        }
    }
}

/// A file is listed in the directory that its path names, and that directory exists.
pub proof fn law_files_are_listed(
    map: Map<Seq<char>, Seq<char>>,
    path: Seq<char>,
    name: Seq<char>,
)
    requires
        component(name),
        map.contains_key(below(text::trimmed(path)) + name),
    ensures
        has_file(map, path, name),
        directory(map, path),
{
    let key = below(text::trimmed(path)) + name;
    assert(below(text::trimmed(path)) =~= key.subrange(
        0,
        below(text::trimmed(path)).len() as int,
    ));
}

/// What lies below a directory in scope is in scope.
pub proof fn lemma_child_in_scope(path: Seq<char>, name: Seq<char>)
    requires
        scoped(path),
    ensures
        scoped(below(text::trimmed(path)) + name),
    decreases name.len(),
{
    let base = text::trimmed(path);
    let child = below(base) + name;
    if name.len() == 0 {
        assert(child =~= base.push('/'));
        assert(child.drop_last() =~= base);
        text::lemma_trimmed_twice(path);
    } else if name.last() == '/' {
        assert(child.drop_last() =~= below(base) + name.drop_last());
        lemma_child_in_scope(path, name.drop_last());
    } else {
        assert(text::trimmed(child) == child);
        if base == ROOT@ {
            assert(below(ROOT@) =~= child.subrange(0, below(ROOT@).len() as int));
        } else {
            let n = below(ROOT@).len() as int;
            assert(below(ROOT@) =~= child.subrange(0, n)) by {
                assert(below(ROOT@) == base.subrange(0, n));
                assert forall|k: int| 0 <= k < n implies below(ROOT@)[k] == child[k] by {
                    assert(base.subrange(0, n)[k] == base[k]);
                }
            }
        }
    }
}

/// The root is in scope, and slashes at its end do not matter.
pub proof fn lemma_root_in_scope()
    ensures
        text::trimmed(ROOT@) == ROOT@,
        scoped(ROOT@),
{
    reveal_strlit("/app");
    assert(ROOT@.last() == 'p');
}

/// A path is in scope exactly if it is `/app` or starts with `/app/`.
pub proof fn law_scope_is_the_root_and_below(path: Seq<char>)
    ensures
        scoped(path) <==> path == "/app"@ || "/app/"@.is_prefix_of(path),
{
    reveal_strlit("/app");
    reveal_strlit("/app/");
    text::law_only_slashes_are_trimmed(path);
    let t = text::trimmed(path);
    assert(below(ROOT@) =~= "/app/"@);
    if path == "/app"@ {
        assert(path[3] == 'p');
        assert(t =~= path);
    }
    if "/app/"@.is_prefix_of(path) {
        assert(path.subrange(0, 5) == "/app/"@);
        assert(path.subrange(0, 5)[3] == path[3]);
        assert(t.len() >= 4);
        assert forall|k: int| 0 <= k < 5 implies path[k] == "/app/"@[k] by {
            assert(path.subrange(0, 5)[k] == path[k]);
        }
        assert forall|k: int| 0 <= k < t.len() implies t[k] == path[k] by {
            assert(path.take(t.len() as int)[k] == path[k]);
        }
        if t.len() == 4 {
            assert(t =~= "/app"@);
        } else {
            assert("/app/"@ =~= t.subrange(0, 5));
        }
    }
    if scoped(path) {
        assert forall|k: int| 0 <= k < t.len() implies t[k] == path[k] by {
            assert(path.take(t.len() as int)[k] == path[k]);
        }
        if t == ROOT@ {
            if path.len() == 4 {
                assert(path =~= "/app"@);
            } else {
                assert("/app/"@ =~= path.subrange(0, 5));
            }
        } else {
            assert forall|k: int| 0 <= k < 5 implies "/app/"@[k] == path[k] by {
                assert(t.subrange(0, 5)[k] == t[k]);
            }
            assert("/app/"@ =~= path.subrange(0, 5));
        }
    }
}

/// A path is above the root exactly if it has no characters but slashes.
pub proof fn law_only_slashes_are_above_the_root(path: Seq<char>)
    ensures
        above_root(path) <==> forall|i: int| 0 <= i < path.len() ==> path[i] == '/',
{
    reveal_strlit("/app");
    text::law_only_slashes_are_trimmed(path);
    let t = text::trimmed(path);
    if above_root(path) && t.len() > 0 {
        let b = below(t);
        assert(b == ROOT@.subrange(0, b.len() as int));
        assert(b[t.len() as int] == '/');
        assert(ROOT@[t.len() as int] == '/');
    }
    if forall|i: int| 0 <= i < path.len() ==> path[i] == '/' {
        if t.len() > 0 {
            assert(path.take(t.len() as int)[t.len() - 1] == path[t.len() - 1]);
        }
    }
}

/// `key` is the path of something below the directory `path`: behind the directory's path,
/// whose slashes at the end do not count, comes a slash and then the rest.
pub open spec fn lies_in(key: Seq<char>, path: Seq<char>, rest: Seq<char>) -> bool {
    key == text::trimmed(path) + seq!['/'] + rest
}

/// A path is a directory exactly if it has no characters but slashes, is the root, or a file
/// lies below it.
pub proof fn law_directories_hold_files(map: Map<Seq<char>, Seq<char>>, path: Seq<char>)
    ensures
        directory(map, path) <==> ((forall|i: int| 0 <= i < path.len() ==> path[i] == '/')
            || text::trimmed(path) == "/app"@ || exists|key: Seq<char>, rest: Seq<char>|
            map.contains_key(key) && #[trigger] lies_in(key, path, rest)),
{
    law_only_slashes_are_above_the_root(path);
    let b = text::trimmed(path) + seq!['/'];
    assert(below(text::trimmed(path)) =~= b);
    if exists|key: Seq<char>| #[trigger] map.contains_key(key) && b.is_prefix_of(key) {
        let key = choose|key: Seq<char>| #[trigger] map.contains_key(key) && b.is_prefix_of(key);
        assert(key =~= b + key.skip(b.len() as int)) by {
            assert(b == key.subrange(0, b.len() as int));
            assert forall|k: int| 0 <= k < b.len() implies b[k] == key[k] by {
                assert(key.subrange(0, b.len() as int)[k] == key[k]);
            }
        }
        assert(lies_in(key, path, key.skip(b.len() as int)));
    }
    if exists|key: Seq<char>, rest: Seq<char>|
        map.contains_key(key) && #[trigger] lies_in(key, path, rest) {
        let (key, rest) = choose|key: Seq<char>, rest: Seq<char>|
            map.contains_key(key) && #[trigger] lies_in(key, path, rest);
        assert(b =~= key.subrange(0, b.len() as int));
    }
}

/// A listing of a directory names a file exactly if the file lies directly in it, and a
/// directory exactly if a file lies somewhere below that; each list is in ascending order,
/// so that no name comes twice.
pub proof fn law_listing_is_complete(
    map: Map<Seq<char>, Seq<char>>,
    path: Seq<char>,
    files: Seq<Seq<char>>,
    directories: Seq<Seq<char>>,
)
    requires
        listing(map, path, files, directories),
    ensures
        forall|name: Seq<char>| #[trigger]
            files.contains(name) <==> !name.contains('/') && map.contains_key(
                text::trimmed(path) + seq!['/'] + name,
            ),
        forall|name: Seq<char>| #[trigger]
            directories.contains(name) <==> !name.contains('/') && exists|
                key: Seq<char>,
                rest: Seq<char>,
            |
                map.contains_key(key) && #[trigger] lies_in(key, path, name + seq!['/'] + rest),
        forall|i: int, j: int|
            0 <= i < j < files.len() ==> text::text_before(#[trigger] files[i], #[trigger] files[j]),
        forall|i: int, j: int|
            0 <= i < j < directories.len() ==> text::text_before(
                #[trigger] directories[i],
                #[trigger] directories[j],
            ),
{
    let b = text::trimmed(path) + seq!['/'];
    assert(below(text::trimmed(path)) =~= b);
    assert forall|name: Seq<char>| #[trigger]
        files.contains(name) <==> !name.contains('/') && map.contains_key(
            text::trimmed(path) + seq!['/'] + name,
        ) by {
        assert(files.contains(name) == has_file(map, path, name));
    }
    assert forall|name: Seq<char>| #[trigger]
        directories.contains(name) <==> !name.contains('/') && exists|
            key: Seq<char>,
            rest: Seq<char>,
        |
            map.contains_key(key) && #[trigger] lies_in(key, path, name + seq!['/'] + rest) by {
        assert(directories.contains(name) == has_directory(map, path, name));
        let start = b + (name + seq!['/']);
        assert(b + below(name) =~= start);
        if has_directory(map, path, name) {
            let key = choose|key: Seq<char>| #[trigger]
                map.contains_key(key) && is_directory_entry(b, key, name);
            let rest = key.skip(start.len() as int);
            assert forall|k: int| 0 <= k < start.len() implies start[k] == key[k] by {
                assert(key.subrange(0, start.len() as int)[k] == key[k]);
            }
            assert(key =~= b + (name + seq!['/'] + rest));
            assert(lies_in(key, path, name + seq!['/'] + rest));
        }
        if !name.contains('/') && exists|key: Seq<char>, rest: Seq<char>|
            map.contains_key(key) && #[trigger] lies_in(key, path, name + seq!['/'] + rest) {
            let (key, rest) = choose|key: Seq<char>, rest: Seq<char>|
                map.contains_key(key) && #[trigger] lies_in(key, path, name + seq!['/'] + rest);
            assert(start =~= key.subrange(0, start.len() as int));
            assert(is_directory_entry(b, key, name));
        }
    }
}

} // verus!
