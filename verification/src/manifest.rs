//! Rewriting the build descriptor of the sandbox: every dependency that is
//! given by a path gets an absolute path, the dependency on the macro crate
//! itself is pinned and switched off, and the serializer is added.

use crate::text::{same_text, texts};
use crate::toml_doc::{
    document_text, into_table, list_value, new_table, no_nodes, parse_document, parsed_document,
    table_get, table_insert, table_keys, table_nodes, table_value, text_value, value_node,
    value_text, write_document, Node,
};
use vstd::prelude::*;

verus! {

/// A path as the descriptor of the host project gives it, and the absolute
/// path that it denotes from the place of that descriptor.
#[derive(Debug)]
pub struct ResolvedPath {
    pub relative: String,
    pub absolute: String,
}

/// Why a build descriptor could not be rewritten.
#[derive(Debug, PartialEq, Eq)]
pub enum ManifestError {
    /// The text is no TOML document.
    Parse,
    /// The document is not a table.
    NotATable,
    /// The document has a `dependencies` entry that is not a table.
    DependenciesNotATable,
    /// One of the resolved paths handed in is not absolute.
    NotAbsolute,
    /// A dependency has a `path` that is not a string.
    PathNotText,
    /// A dependency has a path that is not among the resolved paths.
    Unresolved,
    /// The rewritten document cannot be written.
    Write,
}

/// The name under which a descriptor depends on the macro crate itself.
pub open spec fn self_name() -> Seq<char> {
    "eager-const"@
}

/// The name under which the serializer is added to a descriptor.
pub open spec fn serializer_name() -> Seq<char> {
    "serde-rust"@
}

/// Whether a path is absolute: whether it starts at the root, with `/`.
pub open spec fn is_absolute(path: Seq<char>) -> bool {
    path.len() > 0 && path[0] == '/'
}

/// Whether every resolved path is absolute.
pub open spec fn all_absolute(resolved: Seq<ResolvedPath>) -> bool {
    forall|i: int| 0 <= i < resolved.len() ==> is_absolute((#[trigger] resolved[i]).absolute@)
}

/// The absolute path that `relative` was resolved to: that of the first
/// entry for it.
pub open spec fn resolution(resolved: Seq<ResolvedPath>, relative: Seq<char>) -> Option<Seq<char>>
    decreases resolved.len(),
{
    if resolved.len() == 0 {
        None
    } else if resolved[0].relative@ == relative {
        Some(resolved[0].absolute@)
    } else {
        resolution(resolved.drop_first(), relative)
    }
}

/// The entry that pins the macro crate to its own place and switches its
/// expansion off: inside the sandbox the macro expands to nothing.
pub open spec fn pinned(self_path: Seq<char>) -> Node {
    Node::Table(
        no_nodes().insert("path"@, Node::Text(self_path)).insert(
            "features"@,
            Node::List(seq![Node::Text("inside"@)]),
        ),
    )
}

/// The entry that adds the serializer, by its path.
pub open spec fn serializer_entry(path: Seq<char>) -> Node {
    Node::Table(no_nodes().insert("path"@, Node::Text(path)))
}

/// What a dependency entry holds under `path`, where it is a table with
/// that key.
pub open spec fn entry_path(entry: Node) -> Option<Node> {
    match entry {
        Node::Table(keys) => if keys.contains_key("path"@) {
            Some(keys["path"@])
        } else {
            None
        },
        _ => None,
    }
}

/// What is wrong with a dependency entry, if anything: its path is not a
/// string, or has not been resolved. Nothing is wrong with the entry of the
/// macro crate itself, which is replaced whatever it holds.
pub open spec fn entry_defect(name: Seq<char>, entry: Node, resolved: Seq<ResolvedPath>) -> Option<
    ManifestError,
> {
    if name == self_name() {
        None
    } else {
        match entry_path(entry) {
            Some(Node::Text(relative)) => if resolution(resolved, relative) is None {
                Some(ManifestError::Unresolved)
            } else {
                None
            },
            Some(_) => Some(ManifestError::PathNotText),
            None => None,
        }
    }
}

/// Whether some dependency has the defect `e`.
pub open spec fn has_defect(
    deps: Map<Seq<char>, Node>,
    resolved: Seq<ResolvedPath>,
    e: ManifestError,
) -> bool {
    exists|name: Seq<char>| #[trigger]
        deps.contains_key(name) && entry_defect(name, deps[name], resolved) == Some(e)
}

/// A dependency entry after rewriting. The entry of the macro crate itself
/// becomes the pinned entry. An entry with a path keeps all it holds but the
/// path, which becomes the absolute path that it was resolved to. Every
/// other entry stays as it is.
pub open spec fn rewritten_entry(
    name: Seq<char>,
    entry: Node,
    resolved: Seq<ResolvedPath>,
    self_path: Seq<char>,
) -> Node {
    if name == self_name() {
        pinned(self_path)
    } else {
        match (entry, entry_path(entry)) {
            (Node::Table(keys), Some(Node::Text(relative))) => match resolution(
                resolved,
                relative,
            ) {
                Some(absolute) => Node::Table(keys.insert("path"@, Node::Text(absolute))),
                None => entry,
            },
            _ => entry,
        }
    }
}

/// The dependencies of a document: what its `dependencies` table holds,
/// nothing where it has no such entry, and `None` where the entry is not a
/// table.
pub open spec fn dependencies_of(root: Map<Seq<char>, Node>) -> Option<Map<Seq<char>, Node>> {
    if root.contains_key("dependencies"@) {
        match root["dependencies"@] {
            Node::Table(deps) => Some(deps),
            _ => None,
        }
    } else {
        Some(no_nodes())
    }
}

/// The dependencies after rewriting: each entry rewritten, and the
/// serializer added (in place of an entry of its name, if there was one).
pub open spec fn rewritten_dependencies(
    deps: Map<Seq<char>, Node>,
    resolved: Seq<ResolvedPath>,
    self_path: Seq<char>,
    serializer_path: Seq<char>,
) -> Map<Seq<char>, Node> {
    Map::new(
        |name: Seq<char>| deps.contains_key(name),
        |name: Seq<char>| rewritten_entry(name, deps[name], resolved, self_path),
    ).insert(serializer_name(), serializer_entry(serializer_path))
}

/// The document after rewriting, or the reason why it cannot be rewritten.
/// Nothing but the `dependencies` table changes.
pub open spec fn rewritten(
    document: Option<Node>,
    resolved: Seq<ResolvedPath>,
    self_path: Seq<char>,
    serializer_path: Seq<char>,
) -> Result<Node, ManifestError> {
    match document {
        None => Err(ManifestError::Parse),
        Some(Node::Table(root)) => match dependencies_of(root) {
            None => Err(ManifestError::DependenciesNotATable),
            Some(deps) => if !all_absolute(resolved) {
                Err(ManifestError::NotAbsolute)
            } else if has_defect(deps, resolved, ManifestError::PathNotText) {
                Err(ManifestError::PathNotText)
            } else if has_defect(deps, resolved, ManifestError::Unresolved) {
                Err(ManifestError::Unresolved)
            } else {
                Ok(
                    Node::Table(
                        root.insert(
                            "dependencies"@,
                            Node::Table(
                                rewritten_dependencies(deps, resolved, self_path, serializer_path),
                            ),
                        ),
                    ),
                )
            },
        },
        Some(_) => Err(ManifestError::NotATable),
    }
}

/// Whether `path` is absolute.
pub fn starts_at_root(path: &str) -> (absolute: bool)
    ensures
        absolute == is_absolute(path@),
{
    path.unicode_len() > 0 && path.get_char(0) == '/'
}

/// Whether every resolved path is absolute.
fn check_absolute(resolved: &Vec<ResolvedPath>) -> (ok: bool)
    ensures
        ok == all_absolute(resolved@),
{
    let mut i: usize = 0;
    while i < resolved.len()
        invariant
            i <= resolved.len(),
            forall|j: int| 0 <= j < i ==> is_absolute((#[trigger] resolved[j]).absolute@),
        decreases resolved.len() - i,
    {
        if !starts_at_root(resolved[i].absolute.as_str()) {
            return false;
        }
        i += 1;
    }
    true
}

/// Looks `relative` up among the resolved paths.
fn resolve<'a>(resolved: &'a Vec<ResolvedPath>, relative: &str) -> (found: Option<&'a str>)
    ensures
        match resolution(resolved@, relative@) {
            Some(absolute) => found matches Some(text) && text@ == absolute,
            None => found is None,
        },
{
    let mut i: usize = 0;
    assert(resolved@.skip(0) =~= resolved@);
    while i < resolved.len()
        invariant
            i <= resolved.len(),
            resolution(resolved@, relative@) == resolution(resolved@.skip(i as int), relative@),
        decreases resolved.len() - i,
    {
        assert(resolved@.skip(i as int).drop_first() =~= resolved@.skip(i + 1));
        if same_text(resolved[i].relative.as_str(), relative) {
            return Some(resolved[i].absolute.as_str());
        }
        i += 1;
    }
    None
}

/// The pinned entry of the macro crate, as a value.
fn pinned_value(self_path: &str) -> (value: toml::Value)
    ensures
        value_node(value) == pinned(self_path@),
{
    let mut entry = new_table();
    table_insert(&mut entry, "path", text_value(self_path));
    let mut features: Vec<toml::Value> = Vec::new();
    features.push(text_value("inside"));
    assert(features@.map_values(|item: toml::Value| value_node(item)) =~= seq![
        Node::Text("inside"@),
    ]);
    table_insert(&mut entry, "features", list_value(features));
    table_value(entry)
}

/// The entry of the serializer, as a value.
fn serializer_value(path: &str) -> (value: toml::Value)
    ensures
        value_node(value) == serializer_entry(path@),
{
    let mut entry = new_table();
    table_insert(&mut entry, "path", text_value(path));
    table_value(entry)
}

/// The dependencies table of a document.
fn dependencies(root: &toml::map::Map<String, toml::Value>) -> (r: Option<
    toml::map::Map<String, toml::Value>,
>)
    ensures
        match dependencies_of(table_nodes(*root)) {
            Some(deps) => r matches Some(table) && table_nodes(table) == deps,
            None => r is None,
        },
{
    match table_get(root, "dependencies") {
        Some(value) => into_table(value),
        None => Some(new_table()),
    }
}

/// The dependencies of `orig` with the entries named in `done` rewritten.
spec fn partly(
    orig: Map<Seq<char>, Node>,
    done: Seq<Seq<char>>,
    resolved: Seq<ResolvedPath>,
    self_path: Seq<char>,
) -> Map<Seq<char>, Node> {
    Map::new(
        |name: Seq<char>| orig.contains_key(name),
        |name: Seq<char>|
            if done.contains(name) {
                rewritten_entry(name, orig[name], resolved, self_path)
            } else {
                orig[name]
            },
    )
}

/// Whether one of the first `n` names has the defect `e`.
spec fn defect_before(
    orig: Map<Seq<char>, Node>,
    names: Seq<Seq<char>>,
    n: int,
    resolved: Seq<ResolvedPath>,
    e: ManifestError,
) -> bool {
    exists|j: int|
        0 <= j < n && entry_defect(#[trigger] names[j], orig[names[j]], resolved) == Some(e)
}

/// Once every name has been looked at, a defect was seen exactly if some
/// dependency has it.
proof fn lemma_defect_seen(
    orig: Map<Seq<char>, Node>,
    names: Seq<Seq<char>>,
    resolved: Seq<ResolvedPath>,
    e: ManifestError,
)
    requires
        forall|name: Seq<char>| orig.contains_key(name) <==> names.contains(name),
    ensures
        defect_before(orig, names, names.len() as int, resolved, e) <==> has_defect(
            orig,
            resolved,
            e,
        ),
{
    if defect_before(orig, names, names.len() as int, resolved, e) {
        let j = choose|j: int|
            0 <= j < names.len() && entry_defect(#[trigger] names[j], orig[names[j]], resolved)
                == Some(e);
        assert(names.contains(names[j]));
        assert(orig.contains_key(names[j]));
    }
    if has_defect(orig, resolved, e) {
        let name = choose|name: Seq<char>| #[trigger]
            orig.contains_key(name) && entry_defect(name, orig[name], resolved) == Some(e);
        assert(names.contains(name));
        let j = choose|j: int| 0 <= j < names.len() && names[j] == name;
        assert(entry_defect(names[j], orig[names[j]], resolved) == Some(e));
    }
}

/// Looking at one more name: it is done, and nothing else is.
proof fn lemma_one_more(names: Seq<Seq<char>>, i: int)
    requires
        0 <= i < names.len(),
        names.no_duplicates(),
    ensures
        !names.take(i).contains(names[i]),
        forall|name: Seq<char>|
            names.take(i + 1).contains(name) <==> (names.take(i).contains(name) || name
                == names[i]),
{
    let before = names.take(i);
    let after = names.take(i + 1);
    if before.contains(names[i]) {
        let j = choose|j: int| 0 <= j < before.len() && before[j] == names[i];
        assert(names[j] == names[i]);
    }
    assert forall|name: Seq<char>|
        after.contains(name) <==> (before.contains(name) || name == names[i]) by {
        if after.contains(name) {
            let j = choose|j: int| 0 <= j < after.len() && after[j] == name;
            if j < i {
                assert(before[j] == name);
            }
        }
        if before.contains(name) {
            let j = choose|j: int| 0 <= j < before.len() && before[j] == name;
            assert(after[j] == name);
        }
        if name == names[i] {
            assert(after[i] == name);
        }
    }
}

/// Rewrites the text of a build descriptor for the sandbox.
///
/// `resolved` holds, for each path of the descriptor, the absolute path that
/// it denotes from the place of the host project's descriptor; `self_path` is the
/// place of the macro crate and `serializer_path` that of the serializer.
/// The result is the text of the rewritten document, or the reason why
/// there is none.
pub fn rewrite_manifest(
    manifest: &str,
    resolved: &Vec<ResolvedPath>,
    self_path: &str,
    serializer_path: &str,
) -> (r: Result<String, ManifestError>)
    ensures
        match rewritten(parsed_document(manifest@), resolved@, self_path@, serializer_path@) {
            Ok(document) => match document_text(document) {
                Some(text) => r matches Ok(written) && written@ == text,
                None => r == Err::<String, ManifestError>(ManifestError::Write),
            },
            Err(e) => r == Err::<String, ManifestError>(e),
        },
{
    let document = match parse_document(manifest) {
        Some(document) => document,
        None => {
            return Err(ManifestError::Parse);
        },
    };
    let mut root = match into_table(document) {
        Some(root) => root,
        None => {
            return Err(ManifestError::NotATable);
        },
    };
    let ghost old_root = table_nodes(root);
    let mut deps = match dependencies(&root) {
        Some(deps) => deps,
        None => {
            return Err(ManifestError::DependenciesNotATable);
        },
    };
    if !check_absolute(resolved) {
        return Err(ManifestError::NotAbsolute);
    }
    let ghost orig = table_nodes(deps);
    let keys = table_keys(&deps);
    let ghost names = texts(keys@);
    let mut not_text = false;
    let mut unresolved = false;
    let mut i: usize = 0;
    assert(names.take(0) =~= Seq::empty());
    assert(table_nodes(deps) =~= partly(orig, names.take(0), resolved@, self_path@));
    while i < keys.len()
        invariant
            i <= keys.len(),
            names == texts(keys@),
            names.no_duplicates(),
            forall|name: Seq<char>| orig.contains_key(name) <==> names.contains(name),
            table_nodes(deps) == partly(orig, names.take(i as int), resolved@, self_path@),
            not_text == defect_before(orig, names, i as int, resolved@, ManifestError::PathNotText),
            unresolved == defect_before(orig, names, i as int, resolved@, ManifestError::Unresolved),
        decreases keys.len() - i,
    {
        let key = keys[i].as_str();
        let ghost before = table_nodes(deps);
        proof {
            assert(key@ == names[i as int]);
            assert(names.contains(key@));
            lemma_one_more(names, i as int);
            assert(before[key@] == orig[key@]);
            assert(defect_before(orig, names, i + 1, resolved@, ManifestError::PathNotText) <==> (
            not_text || entry_defect(key@, orig[key@], resolved@) == Some(
                ManifestError::PathNotText,
            ))) by {
                if defect_before(orig, names, i + 1, resolved@, ManifestError::PathNotText) {
                    let j = choose|j: int|
                        0 <= j < i + 1 && entry_defect(
                            #[trigger] names[j],
                            orig[names[j]],
                            resolved@,
                        ) == Some(ManifestError::PathNotText);
                    if j < i {
                        assert(defect_before(
                            orig,
                            names,
                            i as int,
                            resolved@,
                            ManifestError::PathNotText,
                        ));
                    }
                }
            }
            assert(defect_before(orig, names, i + 1, resolved@, ManifestError::Unresolved) <==> (
            unresolved || entry_defect(key@, orig[key@], resolved@) == Some(
                ManifestError::Unresolved,
            ))) by {
                if defect_before(orig, names, i + 1, resolved@, ManifestError::Unresolved) {
                    let j = choose|j: int|
                        0 <= j < i + 1 && entry_defect(
                            #[trigger] names[j],
                            orig[names[j]],
                            resolved@,
                        ) == Some(ManifestError::Unresolved);
                    if j < i {
                        assert(defect_before(
                            orig,
                            names,
                            i as int,
                            resolved@,
                            ManifestError::Unresolved,
                        ));
                    }
                }
            }
        }
        if same_text(key, "eager-const") {
            table_insert(&mut deps, key, pinned_value(self_path));
        } else {
            match table_get(&deps, key) {
                Some(entry) => match into_table(entry) {
                    Some(mut dep) => match table_get(&dep, "path") {
                        Some(path) => match value_text(&path) {
                            Some(relative) => match resolve(resolved, relative.as_str()) {
                                Some(absolute) => {
                                    table_insert(&mut dep, "path", text_value(absolute));
                                    table_insert(&mut deps, key, table_value(dep));
                                },
                                None => {
                                    unresolved = true;
                                },
                            },
                            None => {
                                not_text = true;
                            },
                        },
                        None => {},
                    },
                    None => {},
                },
                None => {},
            }
        }
        assert(table_nodes(deps) =~= before.insert(
            key@,
            rewritten_entry(key@, orig[key@], resolved@, self_path@),
        ));
        assert(table_nodes(deps) =~= partly(orig, names.take(i + 1), resolved@, self_path@));
        i += 1;
    }
    proof {
        assert(names.take(i as int) =~= names);
        lemma_defect_seen(orig, names, resolved@, ManifestError::PathNotText);
        lemma_defect_seen(orig, names, resolved@, ManifestError::Unresolved);
    }
    if not_text {
        return Err(ManifestError::PathNotText);
    }
    if unresolved {
        return Err(ManifestError::Unresolved);
    }
    table_insert(&mut deps, "serde-rust", serializer_value(serializer_path));
    assert(table_nodes(deps) =~= rewritten_dependencies(
        orig,
        resolved@,
        self_path@,
        serializer_path@,
    ));
    table_insert(&mut root, "dependencies", table_value(deps));
    match write_document(&table_value(root)) {
        Some(text) => Ok(text),
        None => Err(ManifestError::Write),
    }
}

/// Whether some dependency other than the macro crate itself is given by
/// the path `relative`.
pub open spec fn names_path(deps: Map<Seq<char>, Node>, relative: Seq<char>) -> bool {
    exists|name: Seq<char>| #[trigger]
        deps.contains_key(name) && name != self_name() && entry_path(deps[name]) == Some(
            Node::Text(relative),
        )
}

/// What is to be resolved before a document can be rewritten: the paths of
/// its dependencies, or the reason why they cannot be told.
pub open spec fn paths_of(document: Option<Node>, r: Result<Vec<String>, ManifestError>) -> bool {
    match document {
        None => r == Err::<Vec<String>, ManifestError>(ManifestError::Parse),
        Some(Node::Table(root)) => match dependencies_of(root) {
            None => r == Err::<Vec<String>, ManifestError>(ManifestError::DependenciesNotATable),
            Some(deps) => if has_defect(deps, Seq::empty(), ManifestError::PathNotText) {
                r == Err::<Vec<String>, ManifestError>(ManifestError::PathNotText)
            } else {
                r matches Ok(paths) && forall|relative: Seq<char>|
                    texts(paths@).contains(relative) <==> names_path(deps, relative)
            },
        },
        Some(_) => r == Err::<Vec<String>, ManifestError>(ManifestError::NotATable),
    }
}

/// Whether one of the first `n` names is given by the path `relative`.
spec fn path_before(
    orig: Map<Seq<char>, Node>,
    names: Seq<Seq<char>>,
    n: int,
    relative: Seq<char>,
) -> bool {
    exists|j: int|
        0 <= j < n && (#[trigger] names[j]) != self_name() && entry_path(orig[names[j]]) == Some(
            Node::Text(relative),
        )
}

/// Once every name has been looked at, a path was seen exactly if some
/// dependency is given by it.
proof fn lemma_path_seen(orig: Map<Seq<char>, Node>, names: Seq<Seq<char>>, relative: Seq<char>)
    requires
        forall|name: Seq<char>| orig.contains_key(name) <==> names.contains(name),
    ensures
        path_before(orig, names, names.len() as int, relative) <==> names_path(orig, relative),
{
    if path_before(orig, names, names.len() as int, relative) {
        let j = choose|j: int|
            0 <= j < names.len() && (#[trigger] names[j]) != self_name() && entry_path(
                orig[names[j]],
            ) == Some(Node::Text(relative));
        assert(names.contains(names[j]));
        assert(orig.contains_key(names[j]));
    }
    if names_path(orig, relative) {
        let name = choose|name: Seq<char>| #[trigger]
            orig.contains_key(name) && name != self_name() && entry_path(orig[name]) == Some(
                Node::Text(relative),
            );
        assert(names.contains(name));
        let j = choose|j: int| 0 <= j < names.len() && names[j] == name;
        assert(names[j] != self_name());
    }
}

/// Lists the paths by which the dependencies of a build descriptor are
/// given: the paths to resolve before the descriptor is rewritten. The
/// dependency on the macro crate itself is left out, since its path is
/// replaced whatever it is.
pub fn relative_paths(manifest: &str) -> (r: Result<Vec<String>, ManifestError>)
    ensures
        paths_of(parsed_document(manifest@), r),
{
    let document = match parse_document(manifest) {
        Some(document) => document,
        None => {
            return Err(ManifestError::Parse);
        },
    };
    let root = match into_table(document) {
        Some(root) => root,
        None => {
            return Err(ManifestError::NotATable);
        },
    };
    let deps = match dependencies(&root) {
        Some(deps) => deps,
        None => {
            return Err(ManifestError::DependenciesNotATable);
        },
    };
    let ghost orig = table_nodes(deps);
    let ghost nobody = Seq::<ResolvedPath>::empty();
    let keys = table_keys(&deps);
    let ghost names = texts(keys@);
    let mut paths: Vec<String> = Vec::new();
    let mut not_text = false;
    let mut i: usize = 0;
    while i < keys.len()
        invariant
            i <= keys.len(),
            names == texts(keys@),
            orig == table_nodes(deps),
            nobody == Seq::<ResolvedPath>::empty(),
            forall|name: Seq<char>| orig.contains_key(name) <==> names.contains(name),
            forall|relative: Seq<char>|
                texts(paths@).contains(relative) <==> path_before(orig, names, i as int, relative),
            not_text == defect_before(orig, names, i as int, nobody, ManifestError::PathNotText),
        decreases keys.len() - i,
    {
        let key = keys[i].as_str();
        let ghost before = texts(paths@);
        let ghost mut found: Option<Seq<char>> = None;
        proof {
            assert(key@ == names[i as int]);
            assert(names.contains(key@));
        }
        if !same_text(key, "eager-const") {
            match table_get(&deps, key) {
                Some(entry) => match into_table(entry) {
                    Some(dep) => match table_get(&dep, "path") {
                        Some(path) => match value_text(&path) {
                            Some(relative) => {
                                proof {
                                    found = Some(relative@);
                                }
                                paths.push(relative);
                            },
                            None => {
                                not_text = true;
                            },
                        },
                        None => {},
                    },
                    None => {},
                },
                None => {},
            }
        }
        proof {
            let after = texts(paths@);
            assert(found matches Some(relative) ==> after =~= before.push(relative));
            assert(found is None ==> after =~= before);
            assert(found is Some <==> (key@ != self_name() && entry_path(orig[key@]) matches Some(
                Node::Text(_),
            )));
            assert(found matches Some(relative) ==> entry_path(orig[key@]) == Some(
                Node::Text(relative),
            ));
            assert forall|relative: Seq<char>|
                after.contains(relative) <==> path_before(orig, names, i + 1, relative) by {
                if after.contains(relative) {
                    let j = choose|j: int| 0 <= j < after.len() && after[j] == relative;
                    if j < before.len() {
                        assert(before[j] == relative);
                        assert(before.contains(relative));
                        let k = choose|k: int|
                            0 <= k < i && (#[trigger] names[k]) != self_name() && entry_path(
                                orig[names[k]],
                            ) == Some(Node::Text(relative));
                        assert(names[k] != self_name());
                    } else {
                        assert(names[i as int] != self_name());
                    }
                }
                if path_before(orig, names, i + 1, relative) {
                    let k = choose|k: int|
                        0 <= k < i + 1 && (#[trigger] names[k]) != self_name() && entry_path(
                            orig[names[k]],
                        ) == Some(Node::Text(relative));
                    if k < i {
                        assert(path_before(orig, names, i as int, relative));
                        assert(before.contains(relative));
                        let j = choose|j: int| 0 <= j < before.len() && before[j] == relative;
                        assert(after[j] == relative);
                    } else {
                        assert(after[after.len() - 1] == relative);
                    }
                }
            }
            assert(defect_before(orig, names, i + 1, nobody, ManifestError::PathNotText) <==> (
            defect_before(orig, names, i as int, nobody, ManifestError::PathNotText)
                || entry_defect(key@, orig[key@], nobody) == Some(ManifestError::PathNotText))) by {
                if defect_before(orig, names, i + 1, nobody, ManifestError::PathNotText) {
                    let j = choose|j: int|
                        0 <= j < i + 1 && entry_defect(#[trigger] names[j], orig[names[j]], nobody)
                            == Some(ManifestError::PathNotText);
                    if j < i {
                        assert(defect_before(
                            orig,
                            names,
                            i as int,
                            nobody,
                            ManifestError::PathNotText,
                        ));
                    }
                }
            }
        }
        i += 1;
    }
    proof {
        lemma_defect_seen(orig, names, nobody, ManifestError::PathNotText);
        assert forall|relative: Seq<char>|
            texts(paths@).contains(relative) <==> names_path(orig, relative) by {
            lemma_path_seen(orig, names, relative);
        }
    }
    if not_text {
        return Err(ManifestError::PathNotText);
    }
    Ok(paths)
}

/// The dependencies of a document, where it is a table with dependencies.
pub open spec fn dependencies_in(document: Node) -> Map<Seq<char>, Node> {
    match document {
        Node::Table(root) => match dependencies_of(root) {
            Some(deps) => deps,
            None => no_nodes(),
        },
        _ => no_nodes(),
    }
}

/// Whether a dependency entry switches the expansion of the macro off:
/// whether `inside` is among its features.
pub open spec fn expansion_off(entry: Node) -> bool {
    entry matches Node::Table(keys) && keys.contains_key("features"@) && (keys["features"@] matches Node::List(
        features,
    ) && features.contains(Node::Text("inside"@)))
}

/// An absolute path comes out of resolving with absolute paths.
pub proof fn lemma_resolution_absolute(resolved: Seq<ResolvedPath>, relative: Seq<char>)
    requires
        all_absolute(resolved),
    ensures
        resolution(resolved, relative) matches Some(absolute) ==> is_absolute(absolute),
    decreases resolved.len(),
{
    if resolved.len() > 0 {
        assert(is_absolute(resolved[0].absolute@));
        if resolved[0].relative@ != relative {
            let rest = resolved.drop_first();
            assert forall|i: int| 0 <= i < rest.len() implies is_absolute(
                (#[trigger] rest[i]).absolute@,
            ) by {
                assert(rest[i] == resolved[i + 1]);
            }
            lemma_resolution_absolute(rest, relative);
        }
    }
}

/// After rewriting, every dependency that was given by a path is given by
/// the absolute path that this path was resolved to, and keeps whatever else
/// its entry held. (The entries of the macro crate itself and of the
/// serializer are replaced as a whole.)
pub proof fn lemma_paths_absolute(
    document: Node,
    resolved: Seq<ResolvedPath>,
    self_path: Seq<char>,
    serializer_path: Seq<char>,
    name: Seq<char>,
    relative: Seq<char>,
)
    requires
        rewritten(Some(document), resolved, self_path, serializer_path) is Ok,
        dependencies_in(document).contains_key(name),
        name != self_name(),
        name != serializer_name(),
        entry_path(dependencies_in(document)[name]) == Some(Node::Text(relative)),
    ensures
        ({
            let out = dependencies_in(
                rewritten(Some(document), resolved, self_path, serializer_path)->Ok_0,
            );
            let before = dependencies_in(document)[name];
            &&& out.contains_key(name)
            &&& resolution(resolved, relative) matches Some(absolute) && is_absolute(absolute)
                && out[name] == Node::Table(
                before->Table_0.insert("path"@, Node::Text(absolute)),
            )
        }),
{
    let deps = dependencies_in(document);
    lemma_resolution_absolute(resolved, relative);
    if resolution(resolved, relative) is None {
        assert(entry_defect(name, deps[name], resolved) == Some(ManifestError::Unresolved));
        assert(has_defect(deps, resolved, ManifestError::Unresolved));
    }
}

/// After rewriting, the entry of the macro crate itself is the pinned
/// entry, which switches the expansion off: inside the sandbox the macro
/// never expands.
pub proof fn lemma_self_switched_off(
    document: Node,
    resolved: Seq<ResolvedPath>,
    self_path: Seq<char>,
    serializer_path: Seq<char>,
)
    requires
        rewritten(Some(document), resolved, self_path, serializer_path) is Ok,
        dependencies_in(document).contains_key(self_name()),
    ensures
        ({
            let out = dependencies_in(
                rewritten(Some(document), resolved, self_path, serializer_path)->Ok_0,
            );
            &&& out.contains_key(self_name())
            &&& out[self_name()] == pinned(self_path)
            &&& expansion_off(out[self_name()])
        }),
{
    reveal_strlit("eager-const");
    reveal_strlit("serde-rust");
    reveal_strlit("path");
    reveal_strlit("features");
    assert(self_name() != serializer_name()) by {
        assert(self_name()[0] != serializer_name()[0]);
    }
    assert("path"@ != "features"@) by {
        assert("path"@[0] != "features"@[0]);
    }
    let features = seq![Node::Text("inside"@)];
    assert(features[0] == Node::Text("inside"@));
}

/// Resolving every path that [`relative_paths`] lists, each to an absolute
/// path, is enough: the descriptor is then rewritten without complaint.
pub proof fn lemma_resolved_is_rewritten(
    document: Node,
    paths: Vec<String>,
    resolved: Seq<ResolvedPath>,
    self_path: Seq<char>,
    serializer_path: Seq<char>,
)
    requires
        paths_of(Some(document), Ok(paths)),
        all_absolute(resolved),
        forall|i: int| 0 <= i < paths.len() ==> resolution(resolved, #[trigger] paths[i]@) is Some,
    ensures
        rewritten(Some(document), resolved, self_path, serializer_path) is Ok,
{
    let deps = dependencies_in(document);
    let nobody = Seq::<ResolvedPath>::empty();
    if has_defect(deps, resolved, ManifestError::PathNotText) {
        let name = choose|name: Seq<char>| #[trigger]
            deps.contains_key(name) && entry_defect(name, deps[name], resolved) == Some(
                ManifestError::PathNotText,
            );
        assert(entry_defect(name, deps[name], nobody) == Some(ManifestError::PathNotText));
        assert(has_defect(deps, nobody, ManifestError::PathNotText));
    }
    if has_defect(deps, resolved, ManifestError::Unresolved) {
        let name = choose|name: Seq<char>| #[trigger]
            deps.contains_key(name) && entry_defect(name, deps[name], resolved) == Some(
                ManifestError::Unresolved,
            );
        let relative = entry_path(deps[name])->0->Text_0;
        assert(names_path(deps, relative));
        assert(texts(paths@).contains(relative));
        let i = choose|i: int| 0 <= i < texts(paths@).len() && texts(paths@)[i] == relative;
        assert(paths[i]@ == relative);
    }
}

} // verus!
