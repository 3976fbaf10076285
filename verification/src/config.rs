//! Configuration keys and values, kept as a tree of tagged items.
//!
//! A key such as `Dir::Cache::pkgcache` names a path of tags from the root;
//! tags are compared without regard to ASCII case. An empty tag matches
//! nothing, so a key that ends in `::` always adds a fresh item: that is how
//! lists are kept.
use vstd::prelude::*;
use crate::text::{
    append_chars, copy_chars, ends_with, ends_with_exec, equal_text, from_chars, same_text,
    same_text_exec, starts_with, starts_with_exec, to_chars,
};

verus! {

/// What one item of the tree holds, as mathematical values.
pub struct ItemView {
    pub tag: Seq<char>,
    pub value: Seq<char>,
    pub parent: usize,
    pub children: Seq<usize>,
}

/// One item of the tree.
pub struct Item {
    tag: Vec<char>,
    value: Vec<char>,
    parent: usize,
    children: Vec<usize>,
}

impl View for Item {
    type V = ItemView;

    closed spec fn view(&self) -> ItemView {
        ItemView {
            tag: self.tag@,
            value: self.value@,
            parent: self.parent,
            children: self.children@,
        }
    }
}

/// The configuration: an arena of items, the root at index 0.
pub struct Config {
    items: Vec<Item>,
}

impl View for Config {
    type V = Seq<ItemView>;

    closed spec fn view(&self) -> Seq<ItemView> {
        Seq::new(self.items@.len(), |i: int| self.items@[i]@)
    }
}

/// The views of a list of texts.
pub open spec fn texts(v: Seq<Vec<char>>) -> Seq<Seq<char>> {
    Seq::new(v.len(), |i: int| v[i]@)
}

/// The tags of `s`: the pieces between its `::` separators, found from the
/// left. `start` is where the current piece began and `i` the scan position.
pub open spec fn split_scan(s: Seq<char>, start: int, i: int) -> Seq<Seq<char>>
    decreases s.len() - i,
{
    if i + 1 >= s.len() {
        seq![s.subrange(start, s.len() as int)]
    } else if s[i] == ':' && s[i + 1] == ':' {
        seq![s.subrange(start, i)] + split_scan(s, i + 2, i + 2)
    } else {
        split_scan(s, start, i + 1)
    }
}

/// The path of tags that a key names.
pub open spec fn split_key(key: Seq<char>) -> Seq<Seq<char>> {
    split_scan(key, 0, 0)
}

/// The first of `kids`, from position `from` on, whose tag is `tag`.
pub open spec fn child_from(t: Seq<ItemView>, kids: Seq<usize>, tag: Seq<char>, from: int) -> Option<
    usize,
>
    decreases kids.len() - from,
{
    if from < 0 || from >= kids.len() {
        None
    } else if kids[from] < t.len() && same_text(t[kids[from] as int].tag, tag) {
        Some(kids[from])
    } else {
        child_from(t, kids, tag, from + 1)
    }
}

/// The child of item `at` that carries `tag`; an empty tag names no child.
pub open spec fn child_of(t: Seq<ItemView>, at: int, tag: Seq<char>) -> Option<usize> {
    if tag.len() == 0 {
        None
    } else {
        child_from(t, t[at].children, tag, 0)
    }
}

/// How far `path` can be followed from item `at`, its first `k` tags already
/// consumed: the item reached and the number of tags consumed in all.
pub open spec fn follow(t: Seq<ItemView>, at: usize, path: Seq<Seq<char>>, k: int) -> (usize, int)
    decreases path.len() - k,
{
    if k < 0 || k >= path.len() {
        (at, k)
    } else {
        match child_of(t, at as int, path[k]) {
            Some(c) => follow(t, c, path, k + 1),
            None => (at, k),
        }
    }
}

/// The item that `path` names, if every tag of it is found.
pub open spec fn resolve(t: Seq<ItemView>, path: Seq<Seq<char>>) -> Option<usize> {
    let (at, k) = follow(t, 0, path, 0);
    if k == path.len() {
        Some(at)
    } else {
        None
    }
}

/// The value found under `path`, or `default` where the item is missing or
/// holds no value.
pub open spec fn find_at(t: Seq<ItemView>, path: Seq<Seq<char>>, default: Seq<char>) -> Seq<char> {
    match resolve(t, path) {
        Some(i) => if t[i as int].value.len() == 0 {
            default
        } else {
            t[i as int].value
        },
        None => default,
    }
}

/// The chain of fresh items that holds the tags of `path` from `k` on, the
/// first of them stored at index `n` as a child of `at`, the last carrying
/// `value`.
pub open spec fn chain(n: int, at: usize, path: Seq<Seq<char>>, k: int, value: Seq<char>) -> Seq<
    ItemView,
> {
    Seq::new(
        (path.len() - k) as nat,
        |j: int|
            ItemView {
                tag: path[k + j],
                value: if k + j == path.len() - 1 {
                    value
                } else {
                    Seq::empty()
                },
                parent: if j == 0 {
                    at
                } else {
                    (n + j - 1) as usize
                },
                children: if k + j == path.len() - 1 {
                    Seq::empty()
                } else {
                    seq![(n + j + 1) as usize]
                },
            },
    )
}

/// The tree after `value` is stored under `path`, the missing items created.
/// A tree that would outgrow the addressable size stays as it is.
pub open spec fn store(t: Seq<ItemView>, path: Seq<Seq<char>>, value: Seq<char>) -> Seq<ItemView> {
    let (at, k) = follow(t, 0, path, 0);
    if t.len() + path.len() - k > usize::MAX {
        t
    } else if k == path.len() {
        t.update(at as int, ItemView { value: value, ..t[at as int] })
    } else {
        t.update(
            at as int,
            ItemView { children: t[at as int].children.push(t.len() as usize), ..t[at as int] },
        ) + chain(t.len() as int, at, path, k, value)
    }
}

/// Like `store`, but an item that already holds a value keeps it.
pub open spec fn store_if_unset(t: Seq<ItemView>, path: Seq<Seq<char>>, value: Seq<char>) -> Seq<
    ItemView,
> {
    match resolve(t, path) {
        Some(i) => if t[i as int].value.len() == 0 {
            store(t, path, value)
        } else {
            t
        },
        None => store(t, path, value),
    }
}

/// The tree's shape: every child lies behind its parent in the arena and
/// points back to it.
pub open spec fn tree_wf(t: Seq<ItemView>) -> bool {
    &&& 0 < t.len() <= usize::MAX
    &&& forall|i: int| 0 <= i < t.len() ==> (#[trigger] t[i]).parent <= i
    &&& forall|i: int, k: int|
        0 <= i < t.len() && 0 <= k < t[i].children.len() ==> i < #[trigger] t[i].children[k]
            < t.len()
    &&& forall|i: int, k: int|
        0 <= i < t.len() && 0 <= k < t[i].children.len() ==> t[#[trigger] t[i].children[k] as int].parent
            == i
}

/// The root alone: a tree that holds no key.
pub open spec fn empty_tree() -> Seq<ItemView> {
    seq![ItemView { tag: Seq::empty(), value: Seq::empty(), parent: 0, children: Seq::empty() }]
}

/// Item `i` without its value and its children.
pub open spec fn wipe(t: Seq<ItemView>, i: int) -> Seq<ItemView> {
    t.update(i, ItemView { value: Seq::empty(), children: Seq::empty(), ..t[i] })
}

/// Those of `kids`, from position `k` on, whose value is not `value`.
pub open spec fn others(t: Seq<ItemView>, kids: Seq<usize>, value: Seq<char>, k: int) -> Seq<usize>
    decreases kids.len() - k,
{
    if k < 0 || k >= kids.len() {
        Seq::empty()
    } else if kids[k] < t.len() && t[kids[k] as int].value == value {
        others(t, kids, value, k + 1)
    } else {
        seq![kids[k]] + others(t, kids, value, k + 1)
    }
}

/// The values of the children of item `i`, in order.
pub open spec fn child_values(t: Seq<ItemView>, i: int) -> Seq<Seq<char>> {
    Seq::new(t[i].children.len(), |k: int| t[t[i].children[k] as int].value)
}

/// The views of a list of strings.
pub open spec fn strings(v: Seq<String>) -> Seq<Seq<char>> {
    Seq::new(v.len(), |i: int| v[i]@)
}

/// The views of a list of string slices.
pub open spec fn slices(v: Seq<&str>) -> Seq<Seq<char>> {
    Seq::new(v.len(), |i: int| v[i]@)
}

/// The tree after each of `values`, from position `k` on, is stored under
/// `path` in turn.
pub open spec fn store_each(t: Seq<ItemView>, path: Seq<Seq<char>>, values: Seq<Seq<char>>, k: int) -> Seq<
    ItemView,
>
    decreases values.len() - k,
{
    if k < 0 || k >= values.len() {
        t
    } else {
        store_each(store(t, path, values[k]), path, values, k + 1)
    }
}

/// The key under which the items of the list `key` are stored: `key` itself
/// where it ends in `::`, else `key` with `::` behind it.
pub open spec fn list_key(key: Seq<char>) -> Seq<char> {
    if key.len() >= 2 && key[key.len() - 2] == ':' && key[key.len() - 1] == ':' {
        key
    } else {
        key + seq![':', ':']
    }
}

/// To store a value leaves a well-formed tree well-formed.
pub proof fn lemma_store_wf(t: Seq<ItemView>, path: Seq<Seq<char>>, value: Seq<char>)
    requires
        tree_wf(t),
        follow(t, 0, path, 0).0 < t.len(),
        0 <= follow(t, 0, path, 0).1 <= path.len(),
    ensures
        tree_wf(store(t, path, value)),
{
    let (at, k) = follow(t, 0, path, 0);
    let r = store(t, path, value);
    if t.len() + path.len() - k > usize::MAX {
    } else if k == path.len() {
        assert forall|i: int, m: int| 0 <= i < r.len() && 0 <= m < r[i].children.len() implies i
            < #[trigger] r[i].children[m] < r.len() && r[r[i].children[m] as int].parent == i by {
            assert(r[i].children == t[i].children);
            assert(t[i].children[m] == r[i].children[m]);
        }
    } else {
        let n = t.len() as int;
        let c = chain(n, at, path, k, value);
        assert forall|i: int| 0 <= i < r.len() implies (#[trigger] r[i]).parent <= i by {
            if i >= n {
                assert(r[i] == c[i - n]);
            } else {
                assert(r[i].parent == t[i].parent);
            }
        }
        assert forall|i: int, m: int| 0 <= i < r.len() && 0 <= m < r[i].children.len() implies i
            < #[trigger] r[i].children[m] < r.len() && r[r[i].children[m] as int].parent == i by {
            if i >= n {
                assert(r[i] == c[i - n]);
                assert(r[i + 1] == c[i + 1 - n]);
            } else if i == at {
                if m < t[i].children.len() {
                    assert(r[i].children[m] == t[i].children[m]);
                } else {
                    assert(r[n] == c[0]);
                }
            } else {
                assert(r[i].children == t[i].children);
                assert(t[i].children[m] == r[i].children[m]);
            }
        }
    }
}

/// What a value says as a yes or no: `1` and the words for yes give `true`,
/// `0` and the words for no give `false`, anything else `default`.
pub open spec fn truth(text: Seq<char>, default: bool) -> bool {
    if text == seq!['0'] {
        false
    } else if text == seq!['1'] {
        true
    } else if same_text(text, "no"@) || same_text(text, "false"@) || same_text(text, "without"@)
        || same_text(text, "off"@) || same_text(text, "disable"@) {
        false
    } else if same_text(text, "yes"@) || same_text(text, "true"@) || same_text(text, "with"@)
        || same_text(text, "on"@) || same_text(text, "enable"@) {
        true
    } else {
        default
    }
}

pub open spec fn is_digit(c: char) -> bool {
    '0' <= c && c <= '9'
}

/// The value of the decimal digits of `s` from position `i` on, added to
/// `acc` and capped at 2^31.
pub open spec fn digits_value(s: Seq<char>, i: int, acc: int) -> int
    decreases s.len() - i,
{
    if 0 <= i < s.len() && is_digit(s[i]) {
        let next = acc * 10 + (s[i] as int - '0' as int);
        digits_value(
            s,
            i + 1,
            if next > 0x8000_0000 {
                0x8000_0000
            } else {
                next
            },
        )
    } else {
        acc
    }
}

/// What a value says as a number: an optional sign and the decimal digits
/// that follow it, held to the range of `i32`; `default` where no digit
/// stands there.
pub open spec fn number(text: Seq<char>, default: int) -> int {
    let start: int = if text.len() > 0 && (text[0] == '-' || text[0] == '+') {
        1
    } else {
        0
    };
    if start < text.len() && is_digit(text[start]) {
        let m = digits_value(text, start, 0);
        if text[0] == '-' {
            -m
        } else if m > i32::MAX {
            i32::MAX as int
        } else {
            m
        }
    } else {
        default
    }
}

/// Whether a path is absolute or starts at the home or the current
/// directory: such a path is not joined to its parents.
pub open spec fn anchored(val: Seq<char>) -> bool {
    ||| val.len() >= 1 && val[0] == '/'
    ||| val.len() >= 2 && (val[0] == '~' || val[0] == '.') && val[1] == '/'
    ||| val.len() >= 3 && val[0] == '.' && val[1] == '.' && val[2] == '/'
}

pub open spec fn null_device() -> Seq<char> {
    "/dev/null"@
}

/// The path `val` of item `i`, joined to the values of the items above it.
pub open spec fn climb(t: Seq<ItemView>, i: usize, val: Seq<char>) -> Seq<char>
    decreases i,
{
    if i == 0 || i >= t.len() || t[i as int].parent >= i {
        val
    } else {
        let p = t[i as int].parent;
        let above = t[p as int].value;
        if above.len() == 0 {
            climb(t, p, val)
        } else if anchored(val) {
            if starts_with(val, null_device()) {
                null_device()
            } else {
                val
            }
        } else if above.last() != '/' {
            climb(t, p, above + seq!['/'] + val)
        } else {
            climb(t, p, above + val)
        }
    }
}

/// The directory that every file lies under: the value of `RootDir`, closed
/// by a slash where it is not empty.
pub open spec fn root_dir(t: Seq<ItemView>) -> Seq<char> {
    let dir = find_at(t, split_key("RootDir"@), Seq::empty());
    if dir.len() > 0 && dir.last() != '/' {
        dir + seq!['/']
    } else {
        dir
    }
}

/// The file that `path` names.
pub open spec fn file_at(t: Seq<ItemView>, path: Seq<Seq<char>>, default: Seq<char>) -> Seq<char> {
    root_dir(t) + match resolve(t, path) {
        Some(i) => if t[i as int].value.len() == 0 {
            default
        } else {
            climb(t, i, t[i as int].value)
        },
        None => default,
    }
}

/// The directory that `path` names: the file, closed by a slash.
pub open spec fn dir_at(t: Seq<ItemView>, path: Seq<Seq<char>>, default: Seq<char>) -> Seq<char> {
    let file = file_at(t, path, default);
    if file.len() > 0 && file.last() != '/' && !ends_with(file, null_device()) {
        file + seq!['/']
    } else {
        file
    }
}

/// One line of a dump: the full tag, then the value in double quotes, a
/// semicolon and a line feed.
pub open spec fn dump_line(full: Seq<char>, value: Seq<char>) -> Seq<char> {
    full + seq![' ', '"'] + value + seq!['"', ';', '\n']
}

/// The full tag of an item: its own tag directly under the root, else the
/// full tag of its parent, `::` and its own tag.
pub open spec fn full_tag(above: Seq<char>, tag: Seq<char>, top: bool) -> Seq<char> {
    if top {
        tag
    } else {
        above + seq![':', ':'] + tag
    }
}

/// The lines of item `i` and of everything below it. `above` is the full
/// tag of its parent, `top` says that the parent is the root.
pub open spec fn dump_tree(t: Seq<ItemView>, i: int, above: Seq<char>, top: bool) -> Seq<char>
    decreases t.len() - i, t[i].children.len() + 1,
{
    if 0 <= i < t.len() {
        let full = full_tag(above, t[i].tag, top);
        dump_line(full, t[i].value) + dump_kids(t, i, 0, full, false)
    } else {
        Seq::empty()
    }
}

/// The lines of the children of item `i` from position `k` on.
pub open spec fn dump_kids(t: Seq<ItemView>, i: int, k: int, above: Seq<char>, top: bool) -> Seq<
    char,
>
    decreases t.len() - i, t[i].children.len() - k,
{
    if 0 <= i < t.len() && 0 <= k < t[i].children.len() {
        let c = t[i].children[k];
        (if i < c < t.len() {
            dump_tree(t, c as int, above, top)
        } else {
            Seq::empty()
        }) + dump_kids(t, i, k + 1, above, top)
    } else {
        Seq::empty()
    }
}

/// Those of `list`, from position `k` on, that differ from `x`.
pub open spec fn without(list: Seq<Seq<char>>, x: Seq<char>, k: int) -> Seq<Seq<char>>
    decreases list.len() - k,
{
    if k < 0 || k >= list.len() {
        Seq::empty()
    } else if list[k] == x {
        without(list, x, k + 1)
    } else {
        seq![list[k]] + without(list, x, k + 1)
    }
}

/// The architectures of a tree: the native one first, where one is set,
/// then the others of the list `APT::Architectures` in their order.
pub open spec fn architectures(t: Seq<ItemView>) -> Seq<Seq<char>> {
    let native = find_at(t, split_key("APT::Architecture"@), Seq::empty());
    let listed = match resolve(t, split_key("APT::Architectures"@)) {
        Some(i) => child_values(t, i as int),
        None => Seq::empty(),
    };
    if native.len() == 0 {
        listed
    } else {
        seq![native] + without(listed, native, 0)
    }
}

/// The tree with every built-in default stored that is not already set.
pub open spec fn with_defaults(t: Seq<ItemView>) -> Seq<ItemView> {
    let t = store_if_unset(t, split_key("APT::Architecture"@), "amd64"@);
    let t = if resolve(t, split_key("APT::Build-Essential"@)).is_some() {
        t
    } else {
        store(t, split_key("APT::Build-Essential::"@), "build-essential"@)
    };
    let t = store_if_unset(t, split_key("APT::Install-Recommends"@), "1"@);
    let t = store_if_unset(t, split_key("APT::Install-Suggests"@), "0"@);
    let t = store_if_unset(t, split_key("Dir"@), "/"@);
    let t = store_if_unset(t, split_key("Dir::State"@), "var/lib/apt"@);
    let t = store_if_unset(t, split_key("Dir::State::lists"@), "lists/"@);
    let t = store_if_unset(t, split_key("Dir::State::cdroms"@), "cdroms.list"@);
    let t = store_if_unset(t, split_key("Dir::State::status"@), "/var/lib/dpkg/status"@);
    let t = store_if_unset(t, split_key("Dir::Cache"@), "var/cache/apt"@);
    let t = store_if_unset(t, split_key("Dir::Cache::archives"@), "archives/"@);
    let t = store_if_unset(t, split_key("Dir::Cache::srcpkgcache"@), "srcpkgcache.bin"@);
    let t = store_if_unset(t, split_key("Dir::Cache::pkgcache"@), "pkgcache.bin"@);
    let t = store_if_unset(t, split_key("Dir::Etc"@), "etc/apt"@);
    let t = store_if_unset(t, split_key("Dir::Etc::sourcelist"@), "sources.list"@);
    let t = store_if_unset(t, split_key("Dir::Etc::sourceparts"@), "sources.list.d"@);
    let t = store_if_unset(t, split_key("Dir::Etc::main"@), "apt.conf"@);
    let t = store_if_unset(t, split_key("Dir::Etc::parts"@), "apt.conf.d"@);
    let t = store_if_unset(t, split_key("Dir::Etc::preferences"@), "preferences"@);
    let t = store_if_unset(t, split_key("Dir::Log"@), "var/log/apt"@);
    t
}

/// The tree after the configuration system is brought up: the defaults are
/// stored where the key `APT` holds no value.
pub open spec fn initialised(t: Seq<ItemView>) -> Seq<ItemView> {
    if find_at(t, split_key("APT"@), Seq::empty()).len() == 0 {
        with_defaults(t)
    } else {
        t
    }
}

/// A child that is found is one of the children searched, lies in the tree
/// and carries the tag.
proof fn lemma_child_found(t: Seq<ItemView>, kids: Seq<usize>, tag: Seq<char>, from: int, c: usize)
    requires
        0 <= from,
        child_from(t, kids, tag, from) == Some(c),
    ensures
        c < t.len(),
        same_text(t[c as int].tag, tag),
        exists|m: int| from <= m < kids.len() && kids[m] == c,
    decreases kids.len() - from,
{
    if from < kids.len() {
        if kids[from] < t.len() && same_text(t[kids[from] as int].tag, tag) {
            assert(kids[from] == c);
        } else {
            lemma_child_found(t, kids, tag, from + 1, c);
        }
    }
}

/// Where no child is found, none of the children searched carries the tag.
proof fn lemma_child_missing(t: Seq<ItemView>, kids: Seq<usize>, tag: Seq<char>, from: int)
    requires
        0 <= from,
        child_from(t, kids, tag, from).is_none(),
    ensures
        forall|m: int|
            from <= m < kids.len() ==> !(#[trigger] kids[m] < t.len() && same_text(t[kids[m] as int].tag, tag)),
    decreases kids.len() - from,
{
    if from < kids.len() {
        lemma_child_missing(t, kids, tag, from + 1);
    }
}

/// The search for a child gives the same in a second tree and a longer list
/// of children, where the first list is the start of the second, the tags
/// of the first tree are those of the second, and the first list has the
/// child.
proof fn lemma_child_kept(
    t: Seq<ItemView>,
    t2: Seq<ItemView>,
    kids: Seq<usize>,
    kids2: Seq<usize>,
    tag: Seq<char>,
    from: int,
)
    requires
        0 <= from,
        t.len() <= t2.len(),
        forall|i: int| 0 <= i < t.len() ==> (#[trigger] t2[i]).tag == t[i].tag,
        kids.len() <= kids2.len(),
        forall|m: int| 0 <= m < kids.len() ==> #[trigger] kids2[m] == kids[m] && kids[m] < t.len(),
        child_from(t, kids, tag, from).is_some(),
    ensures
        child_from(t2, kids2, tag, from) == child_from(t, kids, tag, from),
    decreases kids.len() - from,
{
    if from < kids.len() {
        assert(kids2[from] == kids[from]);
        if !(kids[from] < t.len() && same_text(t[kids[from] as int].tag, tag)) {
            lemma_child_kept(t, t2, kids, kids2, tag, from + 1);
        }
    }
}

/// The second tree holds the first: every item of the first is there with
/// its tag, and with its children at the start of its list of children.
pub open spec fn holds(t: Seq<ItemView>, t2: Seq<ItemView>) -> bool {
    &&& t.len() <= t2.len()
    &&& forall|i: int| 0 <= i < t.len() ==> (#[trigger] t2[i]).tag == t[i].tag
    &&& forall|i: int| 0 <= i < t.len() ==> t[i].children.len() <= (#[trigger] t2[i]).children.len()
    &&& forall|i: int, m: int|
        0 <= i < t.len() && 0 <= m < t[i].children.len() ==> (#[trigger] t2[i].children[m]) == t[i].children[m]
}

/// A walk in a well-formed tree ends at an item of the tree where the
/// next tag is not found, and the walk in a tree that holds the first
/// passes through that item.
proof fn lemma_follow_kept(t: Seq<ItemView>, t2: Seq<ItemView>, at: usize, path: Seq<Seq<char>>, k: int)
    requires
        tree_wf(t),
        holds(t, t2),
        at < t.len(),
        0 <= k <= path.len(),
    ensures
        follow(t, at, path, k).0 < t.len(),
        k <= follow(t, at, path, k).1 <= path.len(),
        follow(t, at, path, k).1 < path.len() ==> child_of(
            t,
            follow(t, at, path, k).0 as int,
            path[follow(t, at, path, k).1],
        ).is_none(),
        follow(t2, at, path, k) == follow(t2, follow(t, at, path, k).0, path, follow(t, at, path, k).1),
    decreases path.len() - k,
{
    if k < path.len() {
        match child_of(t, at as int, path[k]) {
            Some(c) => {
                lemma_child_found(t, t[at as int].children, path[k], 0, c);
                lemma_child_kept(t, t2, t[at as int].children, t2[at as int].children, path[k], 0);
                lemma_follow_kept(t, t2, c, path, k + 1);
            },
            None => {},
        }
    }
}

/// The walk down a chain of fresh items reaches its end.
proof fn lemma_follow_chain(
    t2: Seq<ItemView>,
    n: int,
    at: usize,
    path: Seq<Seq<char>>,
    k: int,
    value: Seq<char>,
    j: int,
)
    requires
        0 <= k < path.len(),
        0 <= j < path.len() - k,
        0 <= n,
        n + path.len() - k == t2.len(),
        t2.len() <= usize::MAX,
        t2.subrange(n, t2.len() as int) == chain(n, at, path, k, value),
        forall|i: int| 0 <= i < path.len() ==> (#[trigger] path[i]).len() > 0,
    ensures
        follow(t2, (n + j) as usize, path, k + j + 1) == ((n + path.len() - k - 1) as usize, path.len() as int),
    decreases path.len() - k - j,
{
    let links = chain(n, at, path, k, value);
    assert(t2[n + j] == t2.subrange(n, t2.len() as int)[j]);
    assert(t2[n + j] == links[j]);
    if k + j + 1 < path.len() {
        assert(t2[n + j + 1] == t2.subrange(n, t2.len() as int)[j + 1]);
        assert(t2[n + j + 1] == links[j + 1]);
        let tag = path[k + j + 1];
        assert(same_text(tag, tag));
        assert(t2[n + j].children =~= seq![(n + j + 1) as usize]);
        assert(child_from(t2, t2[n + j].children, tag, 0) == Some((n + j + 1) as usize));
        lemma_follow_chain(t2, n, at, path, k, value, j + 1);
    }
}

/// What is stored under a key is found under it: after `value` is stored
/// under `path`, the item that `path` names holds `value`. This holds of a
/// path without empty tags and of a tree that does not outgrow the
/// addressable size.
pub proof fn law_stored_is_found(t: Seq<ItemView>, path: Seq<Seq<char>>, value: Seq<char>)
    requires
        tree_wf(t),
        t.len() + path.len() <= usize::MAX,
        forall|i: int| 0 <= i < path.len() ==> (#[trigger] path[i]).len() > 0,
    ensures
        resolve(store(t, path, value), path) matches Some(i) && i < store(t, path, value).len() && store(
            t,
            path,
            value,
        )[i as int].value == value,
        forall|default: Seq<char>|
            #[trigger] find_at(store(t, path, value), path, default) == if value.len() == 0 {
                default
            } else {
                value
            },
{
    let t2 = store(t, path, value);
    let (at, k) = follow(t, 0, path, 0);
    lemma_follow_kept(t, t, 0, path, 0);
    if k == path.len() {
        assert(holds(t, t2));
        lemma_follow_kept(t, t2, 0, path, 0);
    } else {
        let n = t.len() as int;
        let links = chain(n, at, path, k, value);
        assert forall|i: int| 0 <= i < t.len() implies (#[trigger] t2[i]).tag == t[i].tag by {}
        assert(holds(t, t2)) by {
            assert forall|i: int, m: int| 0 <= i < t.len() && 0 <= m < t[i].children.len() implies (
            #[trigger] t2[i].children[m]) == t[i].children[m] by {}
        }
        lemma_follow_kept(t, t2, 0, path, 0);
        let tag = path[k];
        let kids = t[at as int].children;
        let kids2 = t2[at as int].children;
        assert(kids2 =~= kids.push(n as usize));
        lemma_child_missing(t, kids, tag, 0);
        assert(t2[n] == links[0]);
        assert(same_text(tag, tag));
        lemma_child_new(t, t2, kids, kids2, tag, 0, n as usize);
        assert(t2.subrange(n, t2.len() as int) =~= links);
        lemma_follow_chain(t2, n, at, path, k, value, 0);
        assert(t2[n + path.len() - k - 1] == links[path.len() - k - 1]);
    }
}

/// The search for a child finds a fresh child at the end of the list where
/// none of the children before it carries the tag.
proof fn lemma_child_new(
    t: Seq<ItemView>,
    t2: Seq<ItemView>,
    kids: Seq<usize>,
    kids2: Seq<usize>,
    tag: Seq<char>,
    from: int,
    fresh: usize,
)
    requires
        0 <= from <= kids.len(),
        t.len() <= t2.len(),
        forall|i: int| 0 <= i < t.len() ==> (#[trigger] t2[i]).tag == t[i].tag,
        kids2 == kids.push(fresh),
        forall|m: int| 0 <= m < kids.len() ==> (#[trigger] kids[m]) < t.len(),
        forall|m: int|
            0 <= m < kids.len() ==> !(#[trigger] kids[m] < t.len() && same_text(t[kids[m] as int].tag, tag)),
        fresh < t2.len(),
        same_text(t2[fresh as int].tag, tag),
    ensures
        child_from(t2, kids2, tag, from) == Some(fresh),
    decreases kids.len() - from,
{
    if from < kids.len() {
        assert(kids2[from] == kids[from]);
        assert(kids[from] < t.len());
        lemma_child_new(t, t2, kids, kids2, tag, from + 1, fresh);
    } else {
        assert(kids2[from] == fresh);
    }
}

/// Splits a key into its tags.
pub fn split(key: &Vec<char>) -> (path: Vec<Vec<char>>)
    ensures
        texts(path@) == split_key(key@),
        path@.len() >= 1,
{
    let mut path: Vec<Vec<char>> = Vec::new();
    let mut piece: Vec<char> = Vec::new();
    let mut start: usize = 0;
    let mut i: usize = 0;
    while i < key.len() && i + 1 < key.len()
        invariant
            start <= i <= key.len(),
            piece@ == key@.subrange(start as int, i as int),
            texts(path@) + split_scan(key@, start as int, i as int) == split_key(key@),
        decreases key.len() - i,
    {
        if key[i] == ':' && key[i + 1] == ':' {
            let ghost before = texts(path@);
            path.push(piece);
            assert(texts(path@) =~= before + seq![key@.subrange(start as int, i as int)]);
            assert(texts(path@) + split_scan(key@, i + 2, i + 2) =~= before + split_scan(
                key@,
                start as int,
                i as int,
            ));
            piece = Vec::new();
            i += 2;
            start = i;
            assert(piece@ =~= key@.subrange(start as int, i as int));
        } else {
            piece.push(key[i]);
            assert(piece@ =~= key@.subrange(start as int, i + 1));
            i += 1;
        }
    }
    while i < key.len()
        invariant
            start <= i <= key.len(),
            i + 1 >= key.len(),
            piece@ == key@.subrange(start as int, i as int),
            texts(path@) + split_scan(key@, start as int, i as int) == split_key(key@),
        decreases key.len() - i,
    {
        piece.push(key[i]);
        assert(piece@ =~= key@.subrange(start as int, i + 1));
        i += 1;
    }
    let ghost before = texts(path@);
    path.push(piece);
    assert(texts(path@) =~= before + seq![key@.subrange(start as int, key@.len() as int)]);
    path
}

impl Config {
    /// The arena is a well-formed tree.
    pub open spec fn wf(&self) -> bool {
        tree_wf(self@)
    }

    fn child(&self, at: usize, tag: &Vec<char>) -> (found: Option<usize>)
        requires
            self.wf(),
            at < self@.len(),
        ensures
            found == child_of(self@, at as int, tag@),
            found matches Some(c) ==> at < c < self@.len(),
    {
        if tag.len() == 0 {
            return None;
        }
        let kids = &self.items[at].children;
        let mut k: usize = 0;
        while k < kids.len()
            invariant
                self.wf(),
                at < self@.len(),
                kids@ == self@[at as int].children,
                tag@.len() > 0,
                k <= kids.len(),
                child_from(self@, kids@, tag@, k as int) == child_from(self@, kids@, tag@, 0),
            decreases kids.len() - k,
        {
            let c = kids[k];
            assert(c == self@[at as int].children[k as int]);
            assert(self@[c as int].tag == self.items@[c as int].tag@);
            if same_text_exec(&self.items[c].tag, tag) {
                return Some(c);
            }
            k += 1;
        }
        None
    }

    /// Follows `path` from the root as far as its tags are found.
    fn walk(&self, path: &Vec<Vec<char>>) -> (end: (usize, usize))
        requires
            self.wf(),
        ensures
            (end.0, end.1 as int) == follow(self@, 0, texts(path@), 0),
            end.0 < self@.len(),
            end.1 <= path@.len(),
    {
        let mut at: usize = 0;
        let mut k: usize = 0;
        while k < path.len()
            invariant
                self.wf(),
                at < self@.len(),
                k <= path.len(),
                follow(self@, at, texts(path@), k as int) == follow(self@, 0, texts(path@), 0),
            decreases path.len() - k,
        {
            match self.child(at, &path[k]) {
                Some(c) => {
                    at = c;
                    k += 1;
                },
                None => {
                    return (at, k);
                },
            }
        }
        (at, k)
    }

    fn lookup(&self, key: &str) -> (found: Option<usize>)
        requires
            self.wf(),
        ensures
            found == resolve(self@, split_key(key@)),
            found matches Some(i) ==> i < self@.len(),
    {
        let chars = to_chars(key);
        let path = split(&chars);
        let (at, k) = self.walk(&path);
        if k == path.len() {
            Some(at)
        } else {
            None
        }
    }

    /// Find a key and return its value as a string.
    ///
    /// `default` is what is returned where the key is missing or holds no
    /// value.
    pub fn find(&self, key: &str, default: &str) -> (value: String)
        requires
            self.wf(),
        ensures
            value@ == find_at(self@, split_key(key@), default@),
    {
        match self.lookup(key) {
            Some(i) => {
                if self.items[i].value.len() == 0 {
                    String::from_str(default)
                } else {
                    from_chars(&self.items[i].value)
                }
            },
            None => String::from_str(default),
        }
    }

    /// Exactly like `find`, but takes no default and returns an option
    /// instead.
    pub fn get(&self, key: &str) -> (value: Option<String>)
        requires
            self.wf(),
        ensures
            match value {
                Some(v) => v@.len() > 0 && v@ == find_at(self@, split_key(key@), Seq::empty()),
                None => find_at(self@, split_key(key@), Seq::empty()).len() == 0,
            },
    {
        let value = self.find(key, "");
        proof {
            reveal_strlit("");
        }
        if value.as_str().is_empty() {
            return None;
        }
        Some(value)
    }

    /// Stores `value` under `path`, creating the items that are missing.
    fn put(&mut self, path: &Vec<Vec<char>>, value: &Vec<char>)
        requires
            old(self).wf(),
        ensures
            final(self).wf(),
            final(self)@ == store(old(self)@, texts(path@), value@),
    {
        let (at, k) = self.walk(path);
        let n = self.items.len();
        proof {
            lemma_store_wf(self@, texts(path@), value@);
        }
        if path.len() - k > usize::MAX - n {
            return;
        }
        if k == path.len() {
            self.items[at].value = copy_chars(value);
            assert(self@ =~= store(old(self)@, texts(path@), value@));
            return;
        }
        self.items[at].children.push(n);
        let ghost base = old(self)@.update(
            at as int,
            ItemView {
                children: old(self)@[at as int].children.push(n),
                ..old(self)@[at as int]
            },
        );
        let ghost links = chain(n as int, at, texts(path@), k as int, value@);
        assert(self@ =~= base);
        let mut j: usize = 0;
        while k + j < path.len()
            invariant
                k + j <= path.len(),
                k < path.len(),
                n + (path.len() - k) <= usize::MAX,
                base.len() == n,
                at < n,
                links == chain(n as int, at, texts(path@), k as int, value@),
                self@ == base + links.take(j as int),
            decreases path.len() - k - j,
        {
            let last = k + j + 1 == path.len();
            let item = Item {
                tag: copy_chars(&path[k + j]),
                value: if last {
                    copy_chars(value)
                } else {
                    Vec::new()
                },
                parent: if j == 0 {
                    at
                } else {
                    n + j - 1
                },
                children: if last {
                    Vec::new()
                } else {
                    vec![n + j + 1]
                },
            };
            assert(item@ =~= links[j as int]) by {
                assert(item@.children =~= links[j as int].children);
            }
            let ghost before = self@;
            let ghost added = item@;
            self.items.push(item);
            assert(self@ =~= before.push(added));
            assert(self@ =~= base + links.take(j + 1));
            j += 1;
        }
        assert(links.take(j as int) =~= links);
    }

    /// Set the given key to the specified value.
    pub fn set(&mut self, key: &str, value: &str)
        requires
            old(self).wf(),
        ensures
            final(self).wf(),
            final(self)@ == store(old(self)@, split_key(key@), value@),
    {
        let path = split(&to_chars(key));
        let chars = to_chars(value);
        self.put(&path, &chars);
    }

    /// Sets the key to the value unless it already holds one.
    pub fn set_default(&mut self, key: &str, value: &str)
        requires
            old(self).wf(),
        ensures
            final(self).wf(),
            final(self)@ == store_if_unset(old(self)@, split_key(key@), value@),
    {
        let path = split(&to_chars(key));
        let (at, k) = self.walk(&path);
        if k == path.len() && self.items[at].value.len() > 0 {
            return;
        }
        let chars = to_chars(value);
        self.put(&path, &chars);
    }

    /// Clears all values from a key.
    ///
    /// If the value is a list, the entire list is cleared.
    /// To clear one value from a list see `clear_value`.
    pub fn clear(&mut self, key: &str)
        requires
            old(self).wf(),
        ensures
            final(self).wf(),
            final(self)@ == match resolve(old(self)@, split_key(key@)) {
                Some(i) => wipe(old(self)@, i as int),
                None => old(self)@,
            },
    {
        match self.lookup(key) {
            Some(i) => {
                self.items[i].value = Vec::new();
                self.items[i].children = Vec::new();
                assert(self@ =~= wipe(old(self)@, i as int));
                assert forall|a: int, m: int|
                    0 <= a < self@.len() && 0 <= m < self@[a].children.len() implies a
                    < #[trigger] self@[a].children[m] < self@.len()
                    && self@[self@[a].children[m] as int].parent == a by {
                    assert(self@[a].children == old(self)@[a].children);
                    assert(old(self)@[a].children[m] == self@[a].children[m]);
                }
            },
            None => {},
        }
    }

    /// Clears all configurations.
    ///
    /// This leaves an empty configuration.
    pub fn clear_all(&mut self)
        ensures
            final(self).wf(),
            final(self)@ == empty_tree(),
    {
        let root = Item { tag: Vec::new(), value: Vec::new(), parent: 0, children: Vec::new() };
        self.items = vec![root];
        assert(self@ =~= empty_tree());
    }

    /// Clear a single value from a list: every child of the key that holds
    /// `value` leaves the list.
    pub fn clear_value(&mut self, key: &str, value: &str)
        requires
            old(self).wf(),
        ensures
            final(self).wf(),
            final(self)@ == match resolve(old(self)@, split_key(key@)) {
                Some(i) => old(self)@.update(
                    i as int,
                    ItemView {
                        children: others(old(self)@, old(self)@[i as int].children, value@, 0),
                        ..old(self)@[i as int]
                    },
                ),
                None => old(self)@,
            },
    {
        let found = self.lookup(key);
        let i = match found {
            Some(i) => i,
            None => {
                return;
            },
        };
        let chars = to_chars(value);
        let mut kept: Vec<usize> = Vec::new();
        let mut k: usize = 0;
        let n = self.items[i].children.len();
        while k < n
            invariant
                self.wf(),
                i < self@.len(),
                n == self@[i as int].children.len(),
                k <= n,
                chars@ == value@,
                kept@ + others(self@, self@[i as int].children, value@, k as int) == others(
                    self@,
                    self@[i as int].children,
                    value@,
                    0,
                ),
                forall|m: int|
                    0 <= m < kept@.len() ==> i < #[trigger] kept@[m] < self@.len()
                        && self@[kept@[m] as int].parent == i,
            decreases n - k,
        {
            let c = self.items[i].children[k];
            assert(c == self@[i as int].children[k as int]);
            assert(self@[c as int].value == self.items@[c as int].value@);
            if !equal_text(&self.items[c].value, &chars) {
                let ghost before = kept@;
                kept.push(c);
                assert(kept@ + others(self@, self@[i as int].children, value@, k + 1) =~= before
                    + others(self@, self@[i as int].children, value@, k as int));
            }
            k += 1;
        }
        assert(kept@ =~= others(self@, self@[i as int].children, value@, 0));
        self.items[i].children = kept;
        assert(self@ =~= old(self)@.update(
            i as int,
            ItemView {
                children: others(old(self)@, old(self)@[i as int].children, value@, 0),
                ..old(self)@[i as int]
            },
        ));
        assert forall|a: int, m: int|
            0 <= a < self@.len() && 0 <= m < self@[a].children.len() implies a
            < #[trigger] self@[a].children[m] < self@.len() && self@[self@[a].children[m] as int].parent
            == a by {
            if a != i {
                assert(self@[a].children == old(self)@[a].children);
                assert(old(self)@[a].children[m] == self@[a].children[m]);
            }
        }
    }

    /// Return a vector for a configuration list: the values of the children
    /// of the key, in order.
    pub fn find_vector(&self, key: &str) -> (values: Vec<String>)
        requires
            self.wf(),
        ensures
            strings(values@) == match resolve(self@, split_key(key@)) {
                Some(i) => child_values(self@, i as int),
                None => Seq::empty(),
            },
    {
        let mut values: Vec<String> = Vec::new();
        let i = match self.lookup(key) {
            Some(i) => i,
            None => {
                assert(strings(values@) =~= Seq::empty());
                return values;
            },
        };
        let n = self.items[i].children.len();
        let mut k: usize = 0;
        while k < n
            invariant
                self.wf(),
                i < self@.len(),
                n == self@[i as int].children.len(),
                k <= n,
                strings(values@) == child_values(self@, i as int).take(k as int),
            decreases n - k,
        {
            let c = self.items[i].children[k];
            assert(c == self@[i as int].children[k as int]);
            assert(self@[c as int].value == self.items@[c as int].value@);
            let ghost before = strings(values@);
            values.push(from_chars(&self.items[c].value));
            assert(strings(values@) =~= before.push(self@[c as int].value));
            assert(strings(values@) =~= child_values(self@, i as int).take(k + 1));
            k += 1;
        }
        assert(child_values(self@, i as int).take(n as int) =~= child_values(self@, i as int));
        values
    }

    /// Add strings from a vector into a configuration list.
    ///
    /// Each value becomes a fresh child of the key.
    pub fn set_vector(&mut self, key: &str, values: &Vec<&str>)
        requires
            old(self).wf(),
        ensures
            final(self).wf(),
            final(self)@ == store_each(old(self)@, split_key(list_key(key@)), slices(values@), 0),
    {
        let mut vec_key = to_chars(key);
        let len = vec_key.len();
        if !(len >= 2 && vec_key[len - 2] == ':' && vec_key[len - 1] == ':') {
            vec_key.push(':');
            vec_key.push(':');
        }
        assert(vec_key@ =~= list_key(key@));
        let path = split(&vec_key);
        let mut k: usize = 0;
        while k < values.len()
            invariant
                self.wf(),
                k <= values.len(),
                texts(path@) == split_key(list_key(key@)),
                store_each(self@, texts(path@), slices(values@), k as int) == store_each(
                    old(self)@,
                    texts(path@),
                    slices(values@),
                    0,
                ),
            decreases values.len() - k,
        {
            let chars = to_chars(values[k]);
            self.put(&path, &chars);
            k += 1;
        }
    }

    /// The value of item `i`, copied.
    fn value_of(&self, i: usize) -> (value: Vec<char>)
        requires
            i < self@.len(),
        ensures
            value@ == self@[i as int].value,
    {
        assert(self@[i as int].value == self.items@[i as int].value@);
        copy_chars(&self.items[i].value)
    }

    /// Same as `find`, but for boolean values.
    pub fn bool(&self, key: &str, default: bool) -> (value: bool)
        requires
            self.wf(),
        ensures
            value == match resolve(self@, split_key(key@)) {
                Some(i) => if self@[i as int].value.len() == 0 {
                    default
                } else {
                    truth(self@[i as int].value, default)
                },
                None => default,
            },
    {
        let i = match self.lookup(key) {
            Some(i) => i,
            None => {
                return default;
            },
        };
        let text = self.value_of(i);
        if text.len() == 0 {
            return default;
        }
        if text.len() == 1 && text[0] == '0' {
            assert(text@ =~= seq!['0']);
            return false;
        }
        if text.len() == 1 && text[0] == '1' {
            assert(text@ =~= seq!['1']);
            return true;
        }
        if same_text_exec(&text, &to_chars("no")) || same_text_exec(&text, &to_chars("false"))
            || same_text_exec(&text, &to_chars("without")) || same_text_exec(
            &text,
            &to_chars("off"),
        ) || same_text_exec(&text, &to_chars("disable")) {
            return false;
        }
        if same_text_exec(&text, &to_chars("yes")) || same_text_exec(&text, &to_chars("true"))
            || same_text_exec(&text, &to_chars("with")) || same_text_exec(&text, &to_chars("on"))
            || same_text_exec(&text, &to_chars("enable")) {
            return true;
        }
        default
    }

    /// Same as `find`, but for `i32` values.
    pub fn integer(&self, key: &str, default: i32) -> (value: i32)
        requires
            self.wf(),
        ensures
            value == match resolve(self@, split_key(key@)) {
                Some(i) => number(self@[i as int].value, default as int),
                None => default as int,
            },
    {
        let i = match self.lookup(key) {
            Some(i) => i,
            None => {
                return default;
            },
        };
        let text = self.value_of(i);
        let mut at: usize = if text.len() > 0 && (text[0] == '-' || text[0] == '+') {
            1
        } else {
            0
        };
        if !(at < text.len() && '0' <= text[at] && text[at] <= '9') {
            return default;
        }
        let ghost start = at;
        let mut acc: i64 = 0;
        while at < text.len() && '0' <= text[at] && text[at] <= '9'
            invariant
                at <= text.len(),
                0 <= acc <= 0x8000_0000,
                digits_value(text@, at as int, acc as int) == digits_value(text@, start as int, 0),
            decreases text.len() - at,
        {
            let digit = (text[at] as u32 - '0' as u32) as i64;
            let next = acc * 10 + digit;
            acc = if next > 0x8000_0000 {
                0x8000_0000
            } else {
                next
            };
            at += 1;
        }
        if text[0] == '-' {
            (-acc) as i32
        } else if acc > 0x7fff_ffff {
            0x7fff_ffff
        } else {
            acc as i32
        }
    }

    /// Find a file and return its path as a string.
    ///
    /// The value under the key is joined to the values of the items above
    /// it, so `Dir::Cache::pkgcache` gives `/var/cache/apt/pkgcache.bin`.
    /// `default` is what is used where the key is missing or holds no value.
    pub fn file(&self, key: &str, default: &str) -> (path: String)
        requires
            self.wf(),
        ensures
            path@ == file_at(self@, split_key(key@), default@),
    {
        let chars = self.file_chars(key, default);
        from_chars(&chars)
    }

    fn file_chars(&self, key: &str, default: &str) -> (path: Vec<char>)
        requires
            self.wf(),
        ensures
            path@ == file_at(self@, split_key(key@), default@),
    {
        let mut result: Vec<char> = Vec::new();
        match self.lookup("RootDir") {
            Some(r) => {
                result = self.value_of(r);
                if result.len() > 0 && result[result.len() - 1] != '/' {
                    result.push('/');
                }
            },
            None => {},
        }
        assert(result@ =~= root_dir(self@));
        let start = match self.lookup(key) {
            Some(i) => i,
            None => {
                append_chars(&mut result, &to_chars(default));
                return result;
            },
        };
        let mut val = self.value_of(start);
        if val.len() == 0 {
            append_chars(&mut result, &to_chars(default));
            return result;
        }
        let mut i = start;
        while i != 0 && self.items[i].parent < i
            invariant
                self.wf(),
                i < self@.len(),
                start < self@.len(),
                result@ == root_dir(self@),
                resolve(self@, split_key(key@)) == Some(start),
                self@[start as int].value.len() > 0,
                climb(self@, i, val@) == climb(self@, start, self@[start as int].value),
            decreases i,
        {
            assert(self@[i as int].parent == self.items@[i as int].parent);
            let p = self.items[i].parent;
            let above = self.value_of(p);
            if above.len() == 0 {
                i = p;
                continue ;
            }
            let n = val.len();
            if (n >= 1 && val[0] == '/') || (n >= 2 && (val[0] == '~' || val[0] == '.') && val[1]
                == '/') || (n >= 3 && val[0] == '.' && val[1] == '.' && val[2] == '/') {
                let null = to_chars("/dev/null");
                if starts_with_exec(&val, &null) {
                    val = null;
                }
                append_chars(&mut result, &val);
                return result;
            }
            let ghost upper = above@;
            let ghost lower = val@;
            let mut joined = above;
            if joined[joined.len() - 1] != '/' {
                joined.push('/');
                assert(joined@ =~= upper + seq!['/']);
            }
            append_chars(&mut joined, &val);
            val = joined;
            assert(upper.last() != '/' ==> val@ =~= upper + seq!['/'] + lower);
            i = p;
        }
        assert(self@[i as int].parent == self.items@[i as int].parent);
        append_chars(&mut result, &val);
        result
    }

    /// Find a directory and return its path as a string.
    ///
    /// Like `file`, with a slash at the end.
    pub fn dir(&self, key: &str, default: &str) -> (path: String)
        requires
            self.wf(),
        ensures
            path@ == dir_at(self@, split_key(key@), default@),
    {
        let mut chars = self.file_chars(key, default);
        let n = chars.len();
        if n > 0 && chars[n - 1] != '/' && !ends_with_exec(&chars, &to_chars("/dev/null")) {
            chars.push('/');
        }
        from_chars(&chars)
    }

    /// Writes the lines of item `i` and of everything below it to `out`.
    fn dump_item(&self, i: usize, above: &Vec<char>, top: bool, out: &mut Vec<char>)
        requires
            self.wf(),
            i < self@.len(),
        ensures
            final(out)@ == old(out)@ + dump_tree(self@, i as int, above@, top),
        decreases self@.len() - i,
    {
        assert(self@[i as int] == self.items@[i as int]@);
        let mut full: Vec<char> = Vec::new();
        if !top {
            append_chars(&mut full, above);
            full.push(':');
            full.push(':');
        }
        append_chars(&mut full, &self.items[i].tag);
        assert(full@ =~= full_tag(above@, self@[i as int].tag, top));
        append_chars(out, &full);
        out.push(' ');
        out.push('"');
        append_chars(out, &self.items[i].value);
        out.push('"');
        out.push(';');
        out.push('\n');
        assert(out@ =~= old(out)@ + dump_line(full@, self@[i as int].value));
        let n = self.items[i].children.len();
        let mut k: usize = 0;
        while k < n
            invariant
                self.wf(),
                i < self@.len(),
                n == self@[i as int].children.len(),
                k <= n,
                out@ + dump_kids(self@, i as int, k as int, full@, false) == old(out)@ + dump_line(
                    full@,
                    self@[i as int].value,
                ) + dump_kids(self@, i as int, 0, full@, false),
            decreases n - k,
        {
            let c = self.items[i].children[k];
            assert(c == self@[i as int].children[k as int]);
            let ghost before = out@;
            self.dump_item(c, &full, false, out);
            assert(out@ + dump_kids(self@, i as int, k + 1, full@, false) =~= before + dump_kids(
                self@,
                i as int,
                k as int,
                full@,
                false,
            ));
            k += 1;
        }
        assert(out@ =~= out@ + dump_kids(self@, i as int, n as int, full@, false));
    }

    /// Returns a string dump of the configuration: one line for each item,
    /// parents before their children.
    pub fn dump(&self) -> (text: String)
        requires
            self.wf(),
        ensures
            text@ == dump_kids(self@, 0, 0, Seq::empty(), true),
    {
        let mut out: Vec<char> = Vec::new();
        let above: Vec<char> = Vec::new();
        assert(self@[0] == self.items@[0]@);
        let n = self.items[0].children.len();
        let mut k: usize = 0;
        while k < n
            invariant
                self.wf(),
                n == self@[0].children.len(),
                k <= n,
                above@ == Seq::<char>::empty(),
                out@ + dump_kids(self@, 0, k as int, above@, true) == dump_kids(
                    self@,
                    0,
                    0,
                    above@,
                    true,
                ),
            decreases n - k,
        {
            assert(self@[0] == self.items@[0]@);
            let c = self.items[0].children[k];
            assert(c == self@[0].children[k as int]);
            let ghost before = out@;
            self.dump_item(c, &above, true, &mut out);
            assert(out@ + dump_kids(self@, 0, k + 1, above@, true) =~= before + dump_kids(
                self@,
                0,
                k as int,
                above@,
                true,
            ));
            k += 1;
        }
        assert(out@ =~= out@ + dump_kids(self@, 0, n as int, above@, true));
        from_chars(&out)
    }

    /// Return a vector of the supported architectures.
    /// The main architecture is the first in the list.
    pub fn get_architectures(&self) -> (archs: Vec<String>)
        requires
            self.wf(),
        ensures
            strings(archs@) == architectures(self@),
    {
        let native = self.find("APT::Architecture", "");
        proof {
            reveal_strlit("");
        }
        let listed = self.find_vector("APT::Architectures");
        if native.as_str().is_empty() {
            return listed;
        }
        let mut archs: Vec<String> = Vec::new();
        let ghost first = native@;
        archs.push(native.clone());
        assert(strings(archs@) =~= seq![first]);
        let mut k: usize = 0;
        while k < listed.len()
            invariant
                k <= listed.len(),
                native@ == first,
                strings(archs@) + without(strings(listed@), first, k as int) == seq![first]
                    + without(strings(listed@), first, 0),
            decreases listed.len() - k,
        {
            if listed[k] != native {
                let ghost before = strings(archs@);
                archs.push(listed[k].clone());
                assert(strings(archs@) =~= before.push(listed@[k as int]@));
                assert(strings(archs@) + without(strings(listed@), first, k + 1) =~= before
                    + without(strings(listed@), first, k as int));
            }
            k += 1;
        }
        assert(strings(archs@) =~= strings(archs@) + without(
            strings(listed@),
            first,
            listed@.len() as int,
        ));
        archs
    }

    /// Stores every built-in default that is not already set.
    fn apply_defaults(&mut self)
        requires
            old(self).wf(),
        ensures
            final(self).wf(),
            final(self)@ == with_defaults(old(self)@),
    {
        self.set_default("APT::Architecture", "amd64");
        if !self.contains("APT::Build-Essential") {
            self.set("APT::Build-Essential::", "build-essential");
        }
        self.set_default("APT::Install-Recommends", "1");
        self.set_default("APT::Install-Suggests", "0");
        self.set_default("Dir", "/");
        self.set_default("Dir::State", "var/lib/apt");
        self.set_default("Dir::State::lists", "lists/");
        self.set_default("Dir::State::cdroms", "cdroms.list");
        self.set_default("Dir::State::status", "/var/lib/dpkg/status");
        self.set_default("Dir::Cache", "var/cache/apt");
        self.set_default("Dir::Cache::archives", "archives/");
        self.set_default("Dir::Cache::srcpkgcache", "srcpkgcache.bin");
        self.set_default("Dir::Cache::pkgcache", "pkgcache.bin");
        self.set_default("Dir::Etc", "etc/apt");
        self.set_default("Dir::Etc::sourcelist", "sources.list");
        self.set_default("Dir::Etc::sourceparts", "sources.list.d");
        self.set_default("Dir::Etc::main", "apt.conf");
        self.set_default("Dir::Etc::parts", "apt.conf.d");
        self.set_default("Dir::Etc::preferences", "preferences");
        self.set_default("Dir::Log", "var/log/apt");
    }

    /// Create a new configuration with the built-in defaults.
    pub fn new() -> (config: Config)
        ensures
            config.wf(),
            config@ == initialised(empty_tree()),
    {
        let root = Item { tag: Vec::new(), value: Vec::new(), parent: 0, children: Vec::new() };
        let mut config = Config { items: vec![root] };
        assert(config@ =~= empty_tree());
        init_config_system(&mut config);
        config
    }

    /// Clears all configurations, initialises anew, and returns the
    /// configuration.
    pub fn new_clear() -> (config: Config)
        ensures
            config.wf(),
            config@ == initialised(empty_tree()),
    {
        let mut config = Config::new();
        config.clear_all();
        init_config_system(&mut config);
        config
    }

    /// Resets the configuration: clears everything and brings the defaults
    /// back.
    ///
    /// To clear everything and leave it empty, call `clear_all`.
    pub fn reset(&mut self)
        ensures
            final(self).wf(),
            final(self)@ == initialised(empty_tree()),
    {
        self.clear_all();
        init_config_system(self);
    }

    /// A handle on the root of the tree, from which the items can be walked.
    pub fn root_tree(&self) -> (root: ConfigTree<'_>)
        requires
            self.wf(),
        ensures
            root.wf(),
            root.tree() == self@,
            root.index() == 0,
    {
        ConfigTree { config: self, at: 0, slot: 0 }
    }

    /// Simply check if a key exists.
    pub fn contains(&self, key: &str) -> (found: bool)
        requires
            self.wf(),
        ensures
            found == resolve(self@, split_key(key@)).is_some(),
    {
        self.lookup(key).is_some()
    }
}

impl Default for Config {
    /// Create a new configuration with the built-in defaults.
    fn default() -> (config: Config)
        ensures
            config.wf(),
            config@ == initialised(empty_tree()),
    {
        Config::new()
    }
}

/// Brings the configuration system up.
///
/// Where the key `APT` holds no value, the built-in defaults are stored;
/// a key that is already set keeps its value.
pub fn init_config_system(config: &mut Config)
    requires
        old(config).wf(),
    ensures
        final(config).wf(),
        final(config)@ == initialised(old(config)@),
{
    proof {
        reveal_strlit("");
    }
    if config.find("APT", "").as_str().is_empty() {
        config.apply_defaults();
    }
}

/// A position in the tree of a configuration.
pub struct ConfigTree<'a> {
    config: &'a Config,
    at: usize,
    slot: usize,
}

impl<'a> ConfigTree<'a> {
    /// The tree that the handle walks.
    pub closed spec fn tree(&self) -> Seq<ItemView> {
        self.config@
    }

    /// The index of the item that the handle stands on.
    pub closed spec fn index(&self) -> usize {
        self.at
    }

    /// The place of the item among the children of its parent.
    pub closed spec fn place(&self) -> usize {
        self.slot
    }

    /// The handle stands on an item of a well-formed tree, and knows the
    /// item's place among its siblings.
    pub open spec fn wf(&self) -> bool {
        let t = self.tree();
        let i = self.index();
        &&& tree_wf(t)
        &&& i < t.len()
        &&& i != 0 ==> {
            &&& t[i as int].parent < i
            &&& self.place() < t[t[i as int].parent as int].children.len()
            &&& t[t[i as int].parent as int].children[self.place() as int] == i
        }
    }

    /// The next item under the same parent, if there is one.
    pub fn sibling(&self) -> (next: Option<ConfigTree<'a>>)
        requires
            self.wf(),
        ensures
            match next {
                Some(n) => {
                    &&& n.wf()
                    &&& n.tree() == self.tree()
                    &&& self.index() != 0
                    &&& n.place() == self.place() + 1
                    &&& n.index() == self.tree()[self.tree()[self.index() as int].parent as int].children[self.place()
                        + 1]
                },
                None => self.index() == 0 || self.place() + 1
                    == self.tree()[self.tree()[self.index() as int].parent as int].children.len(),
            },
    {
        if self.at == 0 {
            return None;
        }
        assert(self.config@[self.at as int] == self.config.items@[self.at as int]@);
        let p = self.config.items[self.at].parent;
        assert(self.config@[p as int] == self.config.items@[p as int]@);
        let kids = &self.config.items[p].children;
        assert(kids@ == self.tree()[p as int].children);
        let n = kids.len();
        assert(self.slot < n);
        if self.slot + 1 < n {
            let c = kids[self.slot + 1];
            assert(c == self.config@[p as int].children[self.slot + 1]);
            Some(ConfigTree { config: self.config, at: c, slot: self.slot + 1 })
        } else {
            None
        }
    }

    /// The first item below this one, if there is one.
    pub fn child(&self) -> (first: Option<ConfigTree<'a>>)
        requires
            self.wf(),
        ensures
            match first {
                Some(c) => {
                    &&& c.wf()
                    &&& c.tree() == self.tree()
                    &&& c.place() == 0
                    &&& self.tree()[self.index() as int].children.len() > 0
                    &&& c.index() == self.tree()[self.index() as int].children[0]
                },
                None => self.tree()[self.index() as int].children.len() == 0,
            },
    {
        assert(self.config@[self.at as int] == self.config.items@[self.at as int]@);
        let kids = &self.config.items[self.at].children;
        if kids.len() > 0 {
            let c = kids[0];
            assert(c == self.config@[self.at as int].children[0]);
            Some(ConfigTree { config: self.config, at: c, slot: 0 })
        } else {
            None
        }
    }

    /// The tag of the item, unless it is empty.
    pub fn tag(&self) -> (tag: Option<String>)
        requires
            self.wf(),
        ensures
            match tag {
                Some(s) => s@.len() > 0 && s@ == self.tree()[self.index() as int].tag,
                None => self.tree()[self.index() as int].tag.len() == 0,
            },
    {
        assert(self.config@[self.at as int] == self.config.items@[self.at as int]@);
        let chars = &self.config.items[self.at].tag;
        if chars.len() == 0 {
            None
        } else {
            Some(from_chars(chars))
        }
    }

    /// The value of the item, unless it is empty.
    pub fn value(&self) -> (value: Option<String>)
        requires
            self.wf(),
        ensures
            match value {
                Some(s) => s@.len() > 0 && s@ == self.tree()[self.index() as int].value,
                None => self.tree()[self.index() as int].value.len() == 0,
            },
    {
        assert(self.config@[self.at as int] == self.config.items@[self.at as int]@);
        let chars = &self.config.items[self.at].value;
        if chars.len() == 0 {
            None
        } else {
            Some(from_chars(chars))
        }
    }
}

} // verus!
