//! The in-memory virtual file system (a ramdisk): named files and directories,
//! kept in name order.
use vstd::prelude::*;
use crate::text::{chars_of, string_of};
use vstd::string::StrSliceExecFns;
use vstd::utf8::encode_utf8;

verus! {

/// Strict lexicographic order of names, by code point (the order of their UTF-8
/// bytes, which `String`'s `Ord` uses).
pub open spec fn name_lt(a: Seq<char>, b: Seq<char>) -> bool
    decreases a.len(),
{
    if a.len() == 0 {
        b.len() > 0
    } else if b.len() == 0 {
        false
    } else if a[0] != b[0] {
        (a[0] as u32) < (b[0] as u32)
    } else {
        name_lt(a.drop_first(), b.drop_first())
    }
}

/// `name_lt` is transitive.
pub proof fn lemma_name_lt_transitive(a: Seq<char>, b: Seq<char>, c: Seq<char>)
    requires
        name_lt(a, b),
        name_lt(b, c),
    ensures
        name_lt(a, c),
    decreases a.len(),
{
    if a.len() > 0 && b.len() > 0 && c.len() > 0 && a[0] == b[0] && b[0] == c[0] {
        lemma_name_lt_transitive(a.drop_first(), b.drop_first(), c.drop_first());
    }
}

/// `name_lt` is a strict total order: exactly one of `a < b`, `a == b`, `b < a`.
pub proof fn lemma_name_lt_trichotomy(a: Seq<char>, b: Seq<char>)
    ensures
        !(name_lt(a, b) && name_lt(b, a)),
        !name_lt(a, a),
        a != b ==> name_lt(a, b) || name_lt(b, a),
    decreases a.len(),
{
    if a.len() > 0 && b.len() > 0 {
        lemma_name_lt_trichotomy(a.drop_first(), b.drop_first());
        if a[0] == b[0] {
            if a.len() == b.len() && a.drop_first() == b.drop_first() {
                assert forall|i: int| 0 <= i < a.len() implies a[i] == b[i] by {
                    if i > 0 {
                        assert(a[i] == a.drop_first()[i - 1]);
                        assert(b[i] == b.drop_first()[i - 1]);
                    }
                }
                assert(a =~= b);
            }
        } else {
            vstd::utf8::char_u32_cast(a[0], a[0] as u32);
            vstd::utf8::char_u32_cast(b[0], b[0] as u32);
        }
    } else if a.len() > 0 {
        lemma_name_lt_trichotomy(a.drop_first(), a.drop_first());
    } else if b.len() > 0 {
    } else {
        assert(a =~= b);
    }
}

/// Compares two names: `-1`, `0` or `1` as `a` is below, equal to or above `b`.
pub fn compare_names(a: &Vec<char>, b: &Vec<char>) -> (r: i8)
    ensures
        r == -1 || r == 0 || r == 1,
        r == -1 <==> name_lt(a@, b@),
        r == 0 <==> a@ == b@,
        r == 1 <==> name_lt(b@, a@),
{
    proof {
        lemma_name_lt_trichotomy(a@, b@);
    }
    let mut i: usize = 0;
    assert(a@.skip(0) =~= a@);
    assert(b@.skip(0) =~= b@);
    while i < a.len() && i < b.len() && a[i] == b[i]
        invariant
            i <= a.len(),
            i <= b.len(),
            a@.take(i as int) == b@.take(i as int),
            name_lt(a@, b@) == name_lt(a@.skip(i as int), b@.skip(i as int)),
            name_lt(b@, a@) == name_lt(b@.skip(i as int), a@.skip(i as int)),
        decreases a.len() - i,
    {
        assert(a@.skip(i as int).drop_first() =~= a@.skip(i + 1));
        assert(b@.skip(i as int).drop_first() =~= b@.skip(i + 1));
        i += 1;
        assert(a@.take(i as int) =~= b@.take(i as int));
    }
    if i == a.len() && i == b.len() {
        assert(a@ =~= a@.take(i as int));
        assert(b@ =~= b@.take(i as int));
        0
    } else if i == a.len() {
        -1
    } else if i == b.len() {
        1
    } else if (a[i] as u32) < (b[i] as u32) {
        assert(a@[i as int] != b@[i as int]);
        -1
    } else {
        assert(a@[i as int] != b@[i as int]);
        1
    }
}

/// A named node of a directory.
pub struct Entry {
    pub name: Vec<char>,
    pub node: Node,
}

/// File types in the VFS.
pub enum Node {
    /// A file and its bytes.
    File(Vec<u8>),
    /// A directory and its entries.
    Directory(Vec<Entry>),
}

/// What a node holds.
pub enum NodeView {
    File(Seq<u8>),
    Directory(Map<Seq<char>, NodeView>),
}

/// The entries of a directory as a map from names to what they hold
/// (a later entry of a name wins over an earlier one).
pub open spec fn entries_view(es: Seq<Entry>) -> Map<Seq<char>, NodeView>
    decreases es,
{
    if es.len() == 0 {
        Map::empty()
    } else {
        entries_view(es.drop_last()).insert(es.last().name@, node_view(es.last().node))
    }
}

/// What `n` holds.
pub open spec fn node_view(n: Node) -> NodeView
    decreases n,
{
    match n {
        Node::File(b) => NodeView::File(b@),
        Node::Directory(es) => NodeView::Directory(entries_view(es@)),
    }
}

/// No two entries share a name.
pub open spec fn names_distinct(es: Seq<Entry>) -> bool {
    forall|i: int, j: int| 0 <= i < j < es.len() ==> es[i].name@ != es[j].name@
}

/// The entries are in strictly increasing name order.
pub open spec fn names_sorted(es: Seq<Entry>) -> bool {
    forall|i: int, j: int| 0 <= i < j < es.len() ==> name_lt(#[trigger] es[i].name@, #[trigger] es[j].name@)
}

/// With distinct names, the map holds exactly the entries' names, each with its node.
pub proof fn lemma_entries_view(es: Seq<Entry>)
    requires
        names_distinct(es),
    ensures
        forall|k: Seq<char>| #[trigger] entries_view(es).contains_key(k)
            <==> exists|i: int| 0 <= i < es.len() && es[i].name@ == k,
        forall|i: int| 0 <= i < es.len() ==> #[trigger] entries_view(es)[es[i].name@] == node_view(es[i].node),
    decreases es.len(),
{
    if es.len() > 0 {
        let rest = es.drop_last();
        lemma_entries_view(rest);
        assert forall|k: Seq<char>| #[trigger] entries_view(es).contains_key(k)
            <==> exists|i: int| 0 <= i < es.len() && es[i].name@ == k by {
            if entries_view(es).contains_key(k) && k != es.last().name@ {
                let i = choose|i: int| 0 <= i < rest.len() && rest[i].name@ == k;
                assert(es[i] == rest[i]);
            }
            if exists|i: int| 0 <= i < es.len() && es[i].name@ == k {
                let i = choose|i: int| 0 <= i < es.len() && es[i].name@ == k;
                if i < es.len() - 1 {
                    assert(rest[i] == es[i]);
                }
            }
        }
        assert forall|i: int| 0 <= i < es.len() implies #[trigger] entries_view(es)[es[i].name@]
            == node_view(es[i].node) by {
            if i < es.len() - 1 {
                assert(rest[i] == es[i]);
                assert(es[i].name@ != es[es.len() - 1].name@);
            }
        }
    }
}

/// Sorted names are distinct.
pub proof fn lemma_sorted_distinct(es: Seq<Entry>)
    requires
        names_sorted(es),
    ensures
        names_distinct(es),
{
    assert forall|i: int, j: int| 0 <= i < j < es.len() implies es[i].name@ != es[j].name@ by {
        lemma_name_lt_trichotomy(es[i].name@, es[j].name@);
    }
}

/// The file system: the entries of its root directory, in name order.
pub struct VFSManager {
    root: Vec<Entry>,
}

impl VFSManager {
    /// The root entries are in strictly increasing name order.
    pub closed spec fn wf(&self) -> bool {
        names_sorted(self.root@)
    }

    /// The names in the root directory, in order.
    pub closed spec fn names(&self) -> Seq<Seq<char>> {
        self.root@.map_values(|e: Entry| e.name@)
    }

    /// What the root directory holds, by name.
    pub closed spec fn view(&self) -> Map<Seq<char>, NodeView> {
        entries_view(self.root@)
    }

    /// The names are exactly the names the map holds, listed in strictly increasing order.
    pub proof fn lemma_names(&self)
        requires
            self.wf(),
        ensures
            forall|i: int, j: int| 0 <= i < j < self.names().len() ==> name_lt(#[trigger] self.names()[i], #[trigger] self.names()[j]),
            forall|k: Seq<char>| self@.contains_key(k) <==> #[trigger] self.names().contains(k),
    {
        lemma_sorted_distinct(self.root@);
        lemma_entries_view(self.root@);
        assert forall|k: Seq<char>| self@.contains_key(k) <==> #[trigger] self.names().contains(k) by {
            if self@.contains_key(k) {
                let i = choose|i: int| 0 <= i < self.root@.len() && self.root@[i].name@ == k;
                assert(self.names()[i] == k);
            }
            if self.names().contains(k) {
                let i = choose|i: int| 0 <= i < self.names().len() && self.names()[i] == k;
                assert(self.root@[i].name@ == k);
            }
        }
    }

    /// An empty file system.
    pub fn new() -> (r: Self)
        ensures
            r.wf(),
            r@ == Map::<Seq<char>, NodeView>::empty(),
    {
        VFSManager { root: Vec::new() }
    }

    /// The position where `name` is or would go: the number of names below it, and
    /// whether the entry there has that name.
    fn locate(&self, name: &Vec<char>) -> (r: (usize, bool))
        requires
            self.wf(),
        ensures
            r.0 <= self.root@.len(),
            forall|i: int| 0 <= i < r.0 ==> name_lt(#[trigger] self.root@[i].name@, name@),
            r.1 ==> r.0 < self.root@.len() && self.root@[r.0 as int].name@ == name@,
            !r.1 ==> forall|i: int| r.0 <= i < self.root@.len() ==> name_lt(name@, #[trigger] self.root@[i].name@),
    {
        let mut p: usize = 0;
        while p < self.root.len()
            invariant
                p <= self.root@.len(),
                self.wf(),
                forall|i: int| 0 <= i < p ==> name_lt(#[trigger] self.root@[i].name@, name@),
            decreases self.root.len() - p,
        {
            let c = compare_names(&self.root[p].name, name);
            if c == 0 {
                return (p, true);
            }
            if c == 1 {
                assert forall|i: int| p <= i < self.root@.len() implies name_lt(name@, #[trigger] self.root@[i].name@) by {
                    if i > p {
                        lemma_name_lt_transitive(name@, self.root@[p as int].name@, self.root@[i].name@);
                    }
                }
                return (p, false);
            }
            p += 1;
        }
        (p, false)
    }

    /// Puts `node` under `name`, replacing whatever was there.
    fn put(&mut self, name: Vec<char>, node: Node)
        requires
            old(self).wf(),
        ensures
            final(self).wf(),
            final(self)@ == old(self)@.insert(name@, node_view(node)),
    {
        let (p, found) = self.locate(&name);
        let ghost old_root = self.root@;
        let ghost k = name@;
        let ghost v = node_view(node);
        let e = Entry { name, node };
        if found {
            self.root.set(p, e);
        } else {
            self.root.insert(p, e);
        }
        proof {
            let new_root = self.root@;
            assert forall|i: int, j: int| 0 <= i < j < new_root.len() implies name_lt(#[trigger] new_root[i].name@, #[trigger] new_root[j].name@) by {
                if found {
                    if i == p {
                        lemma_name_lt_trichotomy(old_root[i].name@, k);
                    } else if j == p {
                    }
                    assert(name_lt(old_root[i].name@, old_root[j].name@));
                } else {
                    if j < p {
                        assert(name_lt(old_root[i].name@, old_root[j].name@));
                    } else if i < p && j == p {
                    } else if i < p && j > p {
                        assert(name_lt(old_root[i].name@, old_root[j - 1].name@));
                    } else if i == p {
                        assert(name_lt(k, old_root[j - 1].name@));
                    } else {
                        assert(name_lt(old_root[i - 1].name@, old_root[j - 1].name@));
                    }
                }
            }
            lemma_sorted_distinct(old_root);
            lemma_sorted_distinct(new_root);
            lemma_entries_view(old_root);
            lemma_entries_view(new_root);
            let want = entries_view(old_root).insert(k, v);
            assert forall|q: Seq<char>| #[trigger] entries_view(new_root).contains_key(q) <==> want.contains_key(q) by {
                if entries_view(new_root).contains_key(q) {
                    let i = choose|i: int| 0 <= i < new_root.len() && new_root[i].name@ == q;
                    if found {
                        if i != p {
                            assert(old_root[i].name@ == q);
                        }
                    } else if i < p {
                        assert(old_root[i].name@ == q);
                    } else if i > p {
                        assert(old_root[i - 1].name@ == q);
                    }
                }
                if want.contains_key(q) && q != k {
                    let i = choose|i: int| 0 <= i < old_root.len() && old_root[i].name@ == q;
                    if found {
                        assert(new_root[i].name@ == q);
                    } else if i < p {
                        assert(new_root[i].name@ == q);
                    } else {
                        assert(new_root[i + 1].name@ == q);
                    }
                }
                if q == k {
                    assert(new_root[p as int].name@ == q);
                }
            }
            assert forall|q: Seq<char>| #[trigger] entries_view(new_root).contains_key(q) implies entries_view(new_root)[q] == want[q] by {
                let i = choose|i: int| 0 <= i < new_root.len() && new_root[i].name@ == q;
                if found {
                    if i != p {
                        assert(old_root[i].name@ == q);
                        assert(entries_view(old_root)[old_root[i].name@] == node_view(old_root[i].node));
                    }
                } else if i < p {
                    assert(old_root[i].name@ == q);
                    assert(entries_view(old_root)[old_root[i].name@] == node_view(old_root[i].node));
                } else if i > p {
                    assert(old_root[i - 1].name@ == q);
                    assert(entries_view(old_root)[old_root[i - 1].name@] == node_view(old_root[i - 1].node));
                }
            }
            assert(entries_view(new_root) =~= want);
        }
    }

    /// Pre-loads the sample files, scripts and directories: `hello.txt`, `main.c`,
    /// `Main.java`, `demo.sh`, and the empty directories `bin` and `apps`.
    pub fn init(&mut self)
        requires
            old(self).wf(),
        ensures
            final(self).wf(),
            final(self)@ == old(self)@
                .insert("hello.txt"@, NodeView::File(encode_utf8(welcome_text()@)))
                .insert("main.c"@, NodeView::File(encode_utf8(c_sample()@)))
                .insert("Main.java"@, NodeView::File(encode_utf8(java_sample()@)))
                .insert("demo.sh"@, NodeView::File(encode_utf8(script_sample()@)))
                .insert("bin"@, NodeView::Directory(Map::empty()))
                .insert("apps"@, NodeView::Directory(Map::empty())),
    {
        self.put(chars_of("hello.txt"), Node::File(welcome_text().as_bytes_vec()));
        self.put(chars_of("main.c"), Node::File(c_sample().as_bytes_vec()));
        self.put(chars_of("Main.java"), Node::File(java_sample().as_bytes_vec()));
        self.put(chars_of("demo.sh"), Node::File(script_sample().as_bytes_vec()));
        let bin: Vec<Entry> = Vec::new();
        let apps: Vec<Entry> = Vec::new();
        assert(entries_view(bin@) =~= Map::empty());
        self.put(chars_of("bin"), Node::Directory(bin));
        self.put(chars_of("apps"), Node::Directory(apps));
    }

    /// The names in the root directory, in increasing order.
    pub fn list(&self) -> (r: Vec<String>)
        ensures
            r@.len() == self.names().len(),
            forall|i: int| 0 <= i < r@.len() ==> #[trigger] r@[i]@ == self.names()[i],
    {
        let mut r: Vec<String> = Vec::new();
        let mut i: usize = 0;
        while i < self.root.len()
            invariant
                i <= self.root@.len(),
                r@.len() == i,
                forall|j: int| 0 <= j < i ==> #[trigger] r@[j]@ == self.names()[j],
            decreases self.root.len() - i,
        {
            let s = string_of(&self.root[i].name);
            r.push(s);
            i += 1;
        }
        r
    }

    /// Creates or overwrites the file `name` in the root directory with `contents`.
    pub fn write_file(&mut self, name: &str, contents: Vec<u8>)
        requires
            old(self).wf(),
        ensures
            final(self).wf(),
            final(self)@ == old(self)@.insert(name@, NodeView::File(contents@)),
    {
        let n = chars_of(name);
        self.put(n, Node::File(contents));
    }

    /// A copy of the bytes of the file `name`, or `None` where there is no file of that
    /// name (also where the name is a directory).
    pub fn read_file(&self, name: &str) -> (r: Option<Vec<u8>>)
        requires
            self.wf(),
        ensures
            match r {
                Some(b) => self@.contains_key(name@) && self@[name@] == NodeView::File(b@),
                None => !(self@.contains_key(name@) && self@[name@] is File),
            },
    {
        let n = chars_of(name);
        let (p, found) = self.locate(&n);
        proof {
            lemma_sorted_distinct(self.root@);
            lemma_entries_view(self.root@);
        }
        if found {
            match &self.root[p].node {
                Node::File(data) => {
                    let copy = data.clone();
                    assert(copy@ =~= data@);
                    Some(copy)
                },
                Node::Directory(_) => None,
            }
        } else {
            proof {
                if self@.contains_key(name@) {
                    let i = choose|i: int| 0 <= i < self.root@.len() && self.root@[i].name@ == name@;
                    if i < p {
                        lemma_name_lt_trichotomy(name@, name@);
                    } else {
                        lemma_name_lt_trichotomy(name@, name@);
                    }
                }
            }
            None
        }
    }

    /// Deletes the file `name`; `true` if there was a file of that name (a directory
    /// is left in place and gives `false`).
    pub fn remove_file(&mut self, name: &str) -> (removed: bool)
        requires
            old(self).wf(),
        ensures
            final(self).wf(),
            removed == (old(self)@.contains_key(name@) && old(self)@[name@] is File),
            removed ==> final(self)@ == old(self)@.remove(name@),
            !removed ==> final(self)@ == old(self)@,
    {
        let n = chars_of(name);
        let (p, found) = self.locate(&n);
        let ghost old_root = self.root@;
        proof {
            lemma_sorted_distinct(old_root);
            lemma_entries_view(old_root);
            if !found && self@.contains_key(name@) {
                let i = choose|i: int| 0 <= i < self.root@.len() && self.root@[i].name@ == name@;
                lemma_name_lt_trichotomy(name@, name@);
            }
        }
        if !found {
            return false;
        }
        let is_file = match &self.root[p].node {
            Node::File(_) => true,
            Node::Directory(_) => false,
        };
        if !is_file {
            return false;
        }
        self.root.remove(p);
        proof {
            let new_root = self.root@;
            assert forall|i: int, j: int| 0 <= i < j < new_root.len() implies name_lt(#[trigger] new_root[i].name@, #[trigger] new_root[j].name@) by {
                if j < p {
                    assert(name_lt(old_root[i].name@, old_root[j].name@));
                } else if i < p {
                    assert(name_lt(old_root[i].name@, old_root[j + 1].name@));
                } else {
                    assert(name_lt(old_root[i + 1].name@, old_root[j + 1].name@));
                }
            }
            lemma_sorted_distinct(new_root);
            lemma_entries_view(new_root);
            let want = entries_view(old_root).remove(name@);
            assert forall|q: Seq<char>| #[trigger] entries_view(new_root).contains_key(q) <==> want.contains_key(q) by {
                if entries_view(new_root).contains_key(q) {
                    let i = choose|i: int| 0 <= i < new_root.len() && new_root[i].name@ == q;
                    if i < p {
                        assert(old_root[i].name@ == q);
                    } else {
                        assert(old_root[i + 1].name@ == q);
                    }
                }
                if want.contains_key(q) {
                    let i = choose|i: int| 0 <= i < old_root.len() && old_root[i].name@ == q;
                    if i < p {
                        assert(new_root[i].name@ == q);
                    } else {
                        assert(new_root[i - 1].name@ == q);
                    }
                }
            }
            assert forall|q: Seq<char>| #[trigger] entries_view(new_root).contains_key(q) implies entries_view(new_root)[q] == want[q] by {
                let i = choose|i: int| 0 <= i < new_root.len() && new_root[i].name@ == q;
                if i < p {
                    assert(old_root[i].name@ == q);
                    assert(entries_view(old_root)[old_root[i].name@] == node_view(old_root[i].node));
                } else {
                    assert(old_root[i + 1].name@ == q);
                    assert(entries_view(old_root)[old_root[i + 1].name@] == node_view(old_root[i + 1].node));
                }
            }
            assert(entries_view(new_root) =~= want);
        }
        true
    }
}

/// The text of `hello.txt`.
#[verifier::allow_in_spec]
pub fn welcome_text() -> &'static str
    returns
        "Welcome to Teruic OS File System!",
{
    "Welcome to Teruic OS File System!"
}

/// The sample C program `main.c`.
#[verifier::allow_in_spec]
pub fn c_sample() -> &'static str
    returns
        "#include <stdio.h>\n\nint main() {\n    printf(\"Hello from C code running on Teruic OS!\\n\");\n    int result = 42;\n    printf(\"Result code: %d\\n\", result);\n    return 0;\n}\n",
{
    "#include <stdio.h>\n\nint main() {\n    printf(\"Hello from C code running on Teruic OS!\\n\");\n    int result = 42;\n    printf(\"Result code: %d\\n\", result);\n    return 0;\n}\n"
}

/// The sample Java program `Main.java`.
#[verifier::allow_in_spec]
pub fn java_sample() -> &'static str
    returns
        "// Teruic OS Java Application\nSystem.out.println \"Hello from Java running on Teruic OS!\"\nbipush 15\nbipush 27\niadd\nistore 0\niload 0\nprintln\nreturn\n",
{
    "// Teruic OS Java Application\nSystem.out.println \"Hello from Java running on Teruic OS!\"\nbipush 15\nbipush 27\niadd\nistore 0\niload 0\nprintln\nreturn\n"
}

/// The sample shell script `demo.sh`.
#[verifier::allow_in_spec]
pub fn script_sample() -> &'static str
    returns
        "# Teruic OS Automation Script\ninfo\nuptime\n",
{
    "# Teruic OS Automation Script\ninfo\nuptime\n"
}

} // verus!

verus! {

/// A read gives back what the last write to the same name wrote: after `write_file`,
/// the name holds a file with exactly the written bytes, which `read_file` returns.
pub proof fn law_read_after_write(before: VFSManager, after: VFSManager, name: Seq<char>, contents: Seq<u8>)
    requires
        after@ == before@.insert(name, NodeView::File(contents)),
    ensures
        after@.contains_key(name),
        after@[name] == NodeView::File(contents),
{
}

/// A write to one name leaves every other name as it was.
pub proof fn law_write_keeps_others(before: VFSManager, after: VFSManager, name: Seq<char>, contents: Seq<u8>, other: Seq<char>)
    requires
        after@ == before@.insert(name, NodeView::File(contents)),
        other != name,
    ensures
        after@.contains_key(other) == before@.contains_key(other),
        before@.contains_key(other) ==> after@[other] == before@[other],
{
}

/// After a file is removed, the name holds nothing: reading it finds no file, and a
/// second removal reports `false` and changes nothing.
pub proof fn law_removed_file_is_gone(before: VFSManager, after: VFSManager, name: Seq<char>)
    requires
        after@ == before@.remove(name),
    ensures
        !after@.contains_key(name),
{
}

} // verus!
