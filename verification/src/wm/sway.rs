//! The sway layout tree (`root` → `output` → `workspace` → `con`) and what
//! is read from it: the applications that run in each workspace.

use vstd::prelude::*;

verus! {

/// The kind of a node of the layout tree.
#[derive(Clone, Copy, Debug, PartialEq, Eq, Structural)]
pub enum NodeType {
    Root,
    Output,
    Workspace,
    Con,
    FloatingCon,
    Dockarea,
    /// A kind that sway may add later; never a workspace nor a window.
    Other,
}

/// A node of the layout tree, holding what the workspace logic reads.
///
/// `name` is the output name, workspace name or window title; `app_id` is the
/// Wayland application id of a view; `pid` is set on real windows only.
pub struct Node {
    pub node_type: NodeType,
    pub name: Option<String>,
    pub app_id: Option<String>,
    pub pid: Option<i32>,
    pub nodes: Vec<Node>,
    pub floating_nodes: Vec<Node>,
}

/// The characters of an optional string, empty where it is absent.
pub open spec fn text_or_empty(s: Option<String>) -> Seq<char> {
    match s {
        Some(t) => t@,
        None => Seq::empty(),
    }
}

/// A node that stands for an application window: a tiling or floating
/// container that has a process id.
pub open spec fn is_window(n: Node) -> bool {
    (n.node_type == NodeType::Con || n.node_type == NodeType::FloatingCon) && n.pid is Some
}

/// The name under which a window is listed: its app id, else its title.
pub open spec fn app_name(n: Node) -> Seq<char> {
    match n.app_id {
        Some(a) => a@,
        None => text_or_empty(n.name),
    }
}

/// What a node contributes by itself: its name, if it is a window with a
/// non-empty name.
pub open spec fn own_app(n: Node) -> Seq<Seq<char>> {
    if is_window(n) && app_name(n).len() > 0 {
        seq![app_name(n)]
    } else {
        Seq::empty()
    }
}

/// The application names of all windows in the subtree of `n`, in pre-order,
/// tiling children before floating ones.
pub open spec fn leaf_apps(n: Node) -> Seq<Seq<char>>
    decreases n,
{
    own_app(n) + leaf_apps_seq(n.nodes@) + leaf_apps_seq(n.floating_nodes@)
}

/// The application names of the subtrees in `s`, one after the other.
pub open spec fn leaf_apps_seq(s: Seq<Node>) -> Seq<Seq<char>>
    decreases s,
{
    if s.len() == 0 {
        Seq::empty()
    } else {
        leaf_apps_seq(s.drop_last()) + leaf_apps(s.last())
    }
}

/// The characters of each string of `v`.
pub open spec fn texts(v: Seq<String>) -> Seq<Seq<char>> {
    v.map_values(|s: String| s@)
}

proof fn lemma_texts_append(a: Seq<String>, b: Seq<String>)
    ensures
        texts(a + b) == texts(a) + texts(b),
{
    assert(texts(a + b) =~= texts(a) + texts(b));
}

/// Collects the application names of all windows under `node`.
///
/// Descends into both tiling (`nodes`) and floating (`floating_nodes`)
/// children at every level. Only `Con` and `FloatingCon` nodes with a `pid`
/// count as windows; a window is named by its `app_id`, else by its title,
/// and windows with an empty name are left out.
pub fn collect_leaf_apps(node: &Node) -> (apps: Vec<String>)
    ensures
        texts(apps@) == leaf_apps(*node),
    decreases node,
{
    let mut apps: Vec<String> = Vec::new();
    if (node.node_type == NodeType::Con || node.node_type == NodeType::FloatingCon)
        && node.pid.is_some() {
        let name = match &node.app_id {
            Some(a) => a.clone(),
            None => match &node.name {
                Some(t) => t.clone(),
                None => String::new(),
            },
        };
        if !name.as_str().is_empty() {
            apps.push(name);
        }
    }
    assert(texts(apps@) =~= own_app(*node));
    let mut i: usize = 0;
    while i < node.nodes.len()
        invariant
            i <= node.nodes@.len(),
            texts(apps@) == own_app(*node) + leaf_apps_seq(node.nodes@.take(i as int)),
        decreases node.nodes@.len() - i,
    {
        let mut child = collect_leaf_apps(&node.nodes[i]);
        proof {
            lemma_texts_append(apps@, child@);
            assert(node.nodes@.take(i + 1).drop_last() =~= node.nodes@.take(i as int));
        }
        apps.append(&mut child);
        i = i + 1;
    }
    assert(node.nodes@.take(i as int) =~= node.nodes@);
    let ghost tiled = apps@;
    let mut j: usize = 0;
    while j < node.floating_nodes.len()
        invariant
            j <= node.floating_nodes@.len(),
            texts(tiled) == own_app(*node) + leaf_apps_seq(node.nodes@),
            texts(apps@) == texts(tiled) + leaf_apps_seq(node.floating_nodes@.take(j as int)),
        decreases node.floating_nodes@.len() - j,
    {
        let mut child = collect_leaf_apps(&node.floating_nodes[j]);
        proof {
            lemma_texts_append(apps@, child@);
            assert(node.floating_nodes@.take(j + 1).drop_last()
                =~= node.floating_nodes@.take(j as int));
        }
        apps.append(&mut child);
        j = j + 1;
    }
    assert(node.floating_nodes@.take(j as int) =~= node.floating_nodes@);
    apps
}

/// The map described by a list of `(workspace, apps)` entries, later entries
/// taking precedence.
pub open spec fn entries_map(s: Seq<(String, Vec<String>)>) -> Map<Seq<char>, Seq<Seq<char>>>
    decreases s.len(),
{
    if s.len() == 0 {
        Map::empty()
    } else {
        entries_map(s.drop_last()).insert(s.last().0@, texts(s.last().1@))
    }
}

/// No two entries share a workspace name.
pub open spec fn distinct_keys(s: Seq<(String, Vec<String>)>) -> bool {
    forall|i: int, j: int| 0 <= i < j < s.len() ==> s[i].0@ != s[j].0@
}

proof fn lemma_entries_map_lookup(s: Seq<(String, Vec<String>)>, k: Seq<char>)
    requires
        distinct_keys(s),
    ensures
        entries_map(s).dom().contains(k) <==> exists|i: int| 0 <= i < s.len() && s[i].0@ == k,
        forall|i: int| 0 <= i < s.len() && s[i].0@ == k ==> entries_map(s)[k] == texts(s[i].1@),
    decreases s.len(),
{
    if s.len() > 0 {
        let p = s.drop_last();
        assert(distinct_keys(p));
        lemma_entries_map_lookup(p, k);
        if entries_map(s).dom().contains(k) && s.last().0@ != k {
            let i = choose|i: int| 0 <= i < p.len() && p[i].0@ == k;
            assert(s[i].0@ == k);
        }
        assert forall|i: int| 0 <= i < s.len() && s[i].0@ == k implies entries_map(s)[k]
            == texts(s[i].1@) by {
            if i < s.len() - 1 {
                assert(p[i] == s[i]);
            }
        }
        if exists|i: int| 0 <= i < s.len() && s[i].0@ == k {
            let i = choose|i: int| 0 <= i < s.len() && s[i].0@ == k;
            if i < s.len() - 1 {
                assert(p[i] == s[i]);
            }
        }
    }
}

proof fn lemma_entries_map_update(s: Seq<(String, Vec<String>)>, j: int, e: (String, Vec<String>))
    requires
        distinct_keys(s),
        0 <= j < s.len(),
        s[j].0@ == e.0@,
    ensures
        entries_map(s.update(j, e)) == entries_map(s).insert(e.0@, texts(e.1@)),
        distinct_keys(s.update(j, e)),
    decreases s.len(),
{
    let t = s.update(j, e);
    if j == s.len() - 1 {
        assert(t.drop_last() =~= s.drop_last());
        assert(entries_map(t) =~= entries_map(s).insert(e.0@, texts(e.1@)));
    } else {
        let p = s.drop_last();
        assert(t.drop_last() =~= p.update(j, e));
        lemma_entries_map_update(p, j, e);
        assert(s.last().0@ != e.0@);
        assert(entries_map(t) =~= entries_map(s).insert(e.0@, texts(e.1@)));
    }
}

proof fn lemma_entries_map_len(s: Seq<(String, Vec<String>)>)
    requires
        distinct_keys(s),
    ensures
        entries_map(s).dom().finite(),
        entries_map(s).dom().len() == s.len(),
    decreases s.len(),
{
    if s.len() > 0 {
        let p = s.drop_last();
        lemma_entries_map_len(p);
        lemma_entries_map_lookup(p, s.last().0@);
        if entries_map(p).dom().contains(s.last().0@) {
            let i = choose|i: int| 0 <= i < p.len() && p[i].0@ == s.last().0@;
            assert(s[i].0@ == s[s.len() - 1].0@);
        }
    }
}

/// The applications of each workspace, keyed by workspace name.
pub struct WorkspaceApps {
    entries: Vec<(String, Vec<String>)>,
}

impl WorkspaceApps {
    #[verifier::type_invariant]
    spec fn keys_distinct(self) -> bool {
        distinct_keys(self.entries@)
    }

    /// The map from workspace names to the names of their applications.
    pub closed spec fn view(&self) -> Map<Seq<char>, Seq<Seq<char>>> {
        entries_map(self.entries@)
    }

    /// An empty map.
    pub fn new() -> (m: Self)
        ensures
            m.view() == Map::<Seq<char>, Seq<Seq<char>>>::empty(),
    {
        WorkspaceApps { entries: Vec::new() }
    }

    /// Sets the applications of workspace `name`, replacing what it had.
    pub fn insert(&mut self, name: String, apps: Vec<String>)
        ensures
            final(self).view() == old(self).view().insert(name@, texts(apps@)),
    {
        proof {
            use_type_invariant(&*self);
        }
        let mut entries: Vec<(String, Vec<String>)> = Vec::new();
        std::mem::swap(&mut entries, &mut self.entries);
        let ghost old_entries = entries@;
        let mut i: usize = 0;
        while i < entries.len()
            invariant
                entries@ == old_entries,
                old_entries == old(self).entries@,
                distinct_keys(old_entries),
                i <= entries@.len(),
                forall|j: int| 0 <= j < i ==> old_entries[j].0@ != name@,
            decreases entries@.len() - i,
        {
            if entries[i].0 == name {
                proof {
                    lemma_entries_map_update(old_entries, i as int, (name, apps));
                }
                entries.set(i, (name, apps));
                self.entries = entries;
                return;
            }
            i = i + 1;
        }
        proof {
            assert(entries@.push((name, apps)).drop_last() =~= old_entries);
        }
        entries.push((name, apps));
        self.entries = entries;
    }
}

impl WorkspaceApps {
    /// The number of workspaces in the map.
    pub fn len(&self) -> (n: usize)
        ensures
            n == self.view().dom().len(),
            self.view().dom().finite(),
    {
        proof {
            use_type_invariant(self);
            lemma_entries_map_len(self.entries@);
        }
        self.entries.len()
    }

    /// The applications of workspace `name`, if it is in the map.
    pub fn get(&self, name: &String) -> (apps: Option<&Vec<String>>)
        ensures
            match apps {
                Some(v) => self.view().dom().contains(name@) && texts(v@) == self.view()[name@],
                None => !self.view().dom().contains(name@),
            },
    {
        proof {
            use_type_invariant(self);
            lemma_entries_map_lookup(self.entries@, name@);
        }
        let mut i: usize = 0;
        #[verifier::loop_isolation(false)]
        while i < self.entries.len()
            invariant
                i <= self.entries@.len(),
                forall|j: int| 0 <= j < i ==> self.entries@[j].0@ != name@,
            decreases self.entries@.len() - i,
        {
            if self.entries[i].0 == *name {
                return Some(&self.entries[i].1);
            }
            i = i + 1;
        }
        None
    }

    /// Whether workspace `name` is in the map.
    pub fn contains_key(&self, name: &String) -> (found: bool)
        ensures
            found == self.view().dom().contains(name@),
    {
        self.get(name).is_some()
    }
}

/// A name for the text that `serde_json::to_string_pretty` writes for a JSON
/// object whose members are the workspaces of `m`, each with its array of
/// application names.
pub uninterp spec fn pretty_json_object(m: Map<Seq<char>, Seq<Seq<char>>>) -> Seq<char>;

#[verifier::external_type_specification]
#[verifier::external_body]
pub struct ExJsonError(serde_json::Error);

/// Calls `serde_json::to_string_pretty` on the map, handed over as a
/// `BTreeMap<String, Vec<String>>`, whose keys serde_json writes in sorted
/// order, so that the text depends on the map's contents alone. The contract
/// claims that the call succeeds and that its text is the name applied to the
/// map. serde_json documents that serialisation fails only where a
/// `Serialize` impl fails or a map has keys that are not strings; here the
/// keys are strings, the values are arrays of strings, and the text is written
/// into a `Vec<u8>`, whose writes do not fail.
#[verifier::external_body]
fn to_pretty_json(apps: &WorkspaceApps) -> (text: Result<String, serde_json::Error>)
    ensures
        text is Ok,
        text matches Ok(t) ==> t@ == pretty_json_object(apps.view()),
{
    let map: std::collections::BTreeMap<&String, &Vec<String>> =
        apps.entries.iter().map(|e| (&e.0, &e.1)).collect();
    serde_json::to_string_pretty(&map)
}

/// Why the workspace summary could not be written.
#[derive(Debug, PartialEq, Eq, Structural)]
pub enum InfoError {
    /// The JSON serialiser refused the map (it does not, for a map of
    /// strings to lists of strings).
    Serialize,
}

/// The pretty-printed JSON object that maps each non-empty workspace under
/// `root` to the list of applications running in it. It is always written.
pub fn info(root: &Node) -> (json: Result<String, InfoError>)
    ensures
        json is Ok,
        match json {
            Ok(t) => t@ == pretty_json_object(workspace_apps(*root)),
            Err(e) => e == InfoError::Serialize,
        },
{
    let workspace_apps_map = get_ws_and_apps_json(root);
    match to_pretty_json(&workspace_apps_map) {
        Ok(t) => Ok(t),
        Err(_) => Err(InfoError::Serialize),
    }
}

/// The map after walking the subtree of `n` into `m`: a workspace with at
/// least one application sets its name to its applications (an unnamed
/// workspace is filed under the empty name) and is not descended into;
/// any other node walks its tiling children, then its floating ones.
pub open spec fn workspace_fold(n: Node, m: Map<Seq<char>, Seq<Seq<char>>>) -> Map<
    Seq<char>,
    Seq<Seq<char>>,
>
    decreases n,
{
    if n.node_type == NodeType::Workspace {
        if leaf_apps(n).len() > 0 {
            m.insert(text_or_empty(n.name), leaf_apps(n))
        } else {
            m
        }
    } else {
        workspace_fold_seq(n.floating_nodes@, workspace_fold_seq(n.nodes@, m))
    }
}

/// The map after walking each subtree of `s` in turn, starting from `m`.
pub open spec fn workspace_fold_seq(s: Seq<Node>, m: Map<Seq<char>, Seq<Seq<char>>>) -> Map<
    Seq<char>,
    Seq<Seq<char>>,
>
    decreases s,
{
    if s.len() == 0 {
        m
    } else {
        workspace_fold(s.last(), workspace_fold_seq(s.drop_last(), m))
    }
}

/// The map from each non-empty workspace under `root` to its applications.
pub open spec fn workspace_apps(root: Node) -> Map<Seq<char>, Seq<Seq<char>>> {
    workspace_fold(root, Map::empty())
}

/// Walks the tree from `node`, setting `workspace name → app names` in `map`
/// for every workspace found that holds at least one application.
///
/// Stops descending at `Workspace` nodes, whose windows are gathered by
/// [`collect_leaf_apps`]. Workspaces with no windows are left out.
pub fn collect_ws_and_apps_dfs(node: &Node, map: &mut WorkspaceApps)
    ensures
        final(map).view() == workspace_fold(*node, old(map).view()),
    decreases node,
{
    if node.node_type == NodeType::Workspace {
        let ws_name = match &node.name {
            Some(t) => t.clone(),
            None => String::new(),
        };
        let apps: Vec<String> = collect_leaf_apps(node);
        if apps.len() > 0 {
            map.insert(ws_name, apps);
        }
        return;
    }
    let mut i: usize = 0;
    while i < node.nodes.len()
        invariant
            i <= node.nodes@.len(),
            node.node_type != NodeType::Workspace,
            map.view() == workspace_fold_seq(node.nodes@.take(i as int), old(map).view()),
        decreases node.nodes@.len() - i,
    {
        collect_ws_and_apps_dfs(&node.nodes[i], map);
        proof {
            assert(node.nodes@.take(i + 1).drop_last() =~= node.nodes@.take(i as int));
        }
        i = i + 1;
    }
    assert(node.nodes@.take(i as int) =~= node.nodes@);
    let ghost tiled = map.view();
    let mut j: usize = 0;
    while j < node.floating_nodes.len()
        invariant
            j <= node.floating_nodes@.len(),
            node.node_type != NodeType::Workspace,
            tiled == workspace_fold_seq(node.nodes@, old(map).view()),
            map.view() == workspace_fold_seq(node.floating_nodes@.take(j as int), tiled),
        decreases node.floating_nodes@.len() - j,
    {
        collect_ws_and_apps_dfs(&node.floating_nodes[j], map);
        proof {
            assert(node.floating_nodes@.take(j + 1).drop_last()
                =~= node.floating_nodes@.take(j as int));
        }
        j = j + 1;
    }
    assert(node.floating_nodes@.take(j as int) =~= node.floating_nodes@);
}

/// Builds the map `workspace name → app names` from the tree root.
/// Empty workspaces are absent from the returned map.
pub fn get_ws_and_apps_json(root: &Node) -> (workspace_apps_map: WorkspaceApps)
    ensures
        workspace_apps_map.view() == workspace_apps(*root),
{
    let mut workspace_apps_map = WorkspaceApps::new();
    collect_ws_and_apps_dfs(root, &mut workspace_apps_map);
    workspace_apps_map
}

/// `w` is a workspace reached from `n` without passing through another
/// workspace (`n` itself, if `n` is a workspace).
pub open spec fn workspace_in(n: Node, w: Node) -> bool
    decreases n,
{
    if n.node_type == NodeType::Workspace {
        n == w
    } else {
        workspace_in_seq(n.nodes@, w) || workspace_in_seq(n.floating_nodes@, w)
    }
}

/// `w` is a workspace reached from one of the subtrees in `s`.
pub open spec fn workspace_in_seq(s: Seq<Node>, w: Node) -> bool
    decreases s,
{
    if s.len() == 0 {
        false
    } else {
        workspace_in_seq(s.drop_last(), w) || workspace_in(s.last(), w)
    }
}

/// What every key of `out` was set from: the value it had in `m`, or a
/// non-empty workspace reached by `found`.
pub open spec fn fold_sound(
    out: Map<Seq<char>, Seq<Seq<char>>>,
    m: Map<Seq<char>, Seq<Seq<char>>>,
    found: spec_fn(Node) -> bool,
) -> bool {
    forall|k: Seq<char>|
        #[trigger] out.dom().contains(k) ==> (m.dom().contains(k) && out[k] == m[k]) || exists|
            w: Node,
        |
            found(w) && text_or_empty(w.name) == k && out[k] == leaf_apps(w) && leaf_apps(
                w,
            ).len() > 0
}

proof fn lemma_fold(n: Node, m: Map<Seq<char>, Seq<Seq<char>>>)
    ensures
        forall|k: Seq<char>| m.dom().contains(k) ==> #[trigger] workspace_fold(n, m).dom().contains(k),
        fold_sound(workspace_fold(n, m), m, |w: Node| workspace_in(n, w)),
        forall|w: Node|
            workspace_in(n, w) && leaf_apps(w).len() > 0 ==> #[trigger] workspace_fold(
                n,
                m,
            ).dom().contains(text_or_empty(w.name)),
    decreases n,
{
    if n.node_type == NodeType::Workspace {
        let out = workspace_fold(n, m);
        assert forall|k: Seq<char>| #[trigger] out.dom().contains(k) implies (m.dom().contains(k)
            && out[k] == m[k]) || exists|w: Node|
            workspace_in(n, w) && text_or_empty(w.name) == k && out[k] == leaf_apps(w)
                && leaf_apps(w).len() > 0 by {
            if leaf_apps(n).len() > 0 && k == text_or_empty(n.name) {
                assert(workspace_in(n, n));
            }
        }
    } else {
        let m1 = workspace_fold_seq(n.nodes@, m);
        lemma_fold_seq(n.nodes@, m);
        lemma_fold_seq(n.floating_nodes@, m1);
        let out = workspace_fold(n, m);
        assert forall|k: Seq<char>| #[trigger] out.dom().contains(k) implies (m.dom().contains(k)
            && out[k] == m[k]) || exists|w: Node|
            workspace_in(n, w) && text_or_empty(w.name) == k && out[k] == leaf_apps(w)
                && leaf_apps(w).len() > 0 by {
            if !(m1.dom().contains(k) && out[k] == m1[k]) {
                let w = choose|w: Node|
                    workspace_in_seq(n.floating_nodes@, w) && text_or_empty(w.name) == k && out[k]
                        == leaf_apps(w) && leaf_apps(w).len() > 0;
                assert(workspace_in(n, w));
            } else if !(m.dom().contains(k) && m1[k] == m[k]) {
                let w = choose|w: Node|
                    workspace_in_seq(n.nodes@, w) && text_or_empty(w.name) == k && m1[k]
                        == leaf_apps(w) && leaf_apps(w).len() > 0;
                assert(workspace_in(n, w));
            }
        }
    }
}

proof fn lemma_fold_seq(s: Seq<Node>, m: Map<Seq<char>, Seq<Seq<char>>>)
    ensures
        forall|k: Seq<char>|
            m.dom().contains(k) ==> #[trigger] workspace_fold_seq(s, m).dom().contains(k),
        fold_sound(workspace_fold_seq(s, m), m, |w: Node| workspace_in_seq(s, w)),
        forall|w: Node|
            workspace_in_seq(s, w) && leaf_apps(w).len() > 0 ==> #[trigger] workspace_fold_seq(
                s,
                m,
            ).dom().contains(text_or_empty(w.name)),
    decreases s,
{
    if s.len() > 0 {
        let p = s.drop_last();
        let m1 = workspace_fold_seq(p, m);
        lemma_fold_seq(p, m);
        lemma_fold(s.last(), m1);
        let out = workspace_fold_seq(s, m);
        assert forall|k: Seq<char>| #[trigger] out.dom().contains(k) implies (m.dom().contains(k)
            && out[k] == m[k]) || exists|w: Node|
            workspace_in_seq(s, w) && text_or_empty(w.name) == k && out[k] == leaf_apps(w)
                && leaf_apps(w).len() > 0 by {
            if !(m1.dom().contains(k) && out[k] == m1[k]) {
                let w = choose|w: Node|
                    workspace_in(s.last(), w) && text_or_empty(w.name) == k && out[k]
                        == leaf_apps(w) && leaf_apps(w).len() > 0;
                assert(workspace_in_seq(s, w));
            } else if !(m.dom().contains(k) && m1[k] == m[k]) {
                let w = choose|w: Node|
                    workspace_in_seq(p, w) && text_or_empty(w.name) == k && m1[k] == leaf_apps(w)
                        && leaf_apps(w).len() > 0;
                assert(workspace_in_seq(s, w));
            }
        }
    }
}

proof fn lemma_leaf_apps_named(n: Node)
    ensures
        forall|i: int| 0 <= i < leaf_apps(n).len() ==> #[trigger] leaf_apps(n)[i].len() > 0,
    decreases n,
{
    lemma_leaf_apps_seq_named(n.nodes@);
    lemma_leaf_apps_seq_named(n.floating_nodes@);
    let a = own_app(n);
    let b = leaf_apps_seq(n.nodes@);
    let c = leaf_apps_seq(n.floating_nodes@);
    assert forall|i: int| 0 <= i < leaf_apps(n).len() implies #[trigger] leaf_apps(n)[i].len()
        > 0 by {
        if i < a.len() {
        } else if i < a.len() + b.len() {
            assert(leaf_apps(n)[i] == b[i - a.len()]);
        } else {
            assert(leaf_apps(n)[i] == c[i - a.len() - b.len()]);
        }
    }
}

proof fn lemma_leaf_apps_seq_named(s: Seq<Node>)
    ensures
        forall|i: int|
            0 <= i < leaf_apps_seq(s).len() ==> #[trigger] leaf_apps_seq(s)[i].len() > 0,
    decreases s,
{
    if s.len() > 0 {
        lemma_leaf_apps_seq_named(s.drop_last());
        lemma_leaf_apps_named(s.last());
        let a = leaf_apps_seq(s.drop_last());
        assert forall|i: int| 0 <= i < leaf_apps_seq(s).len() implies #[trigger] leaf_apps_seq(
            s,
        )[i].len() > 0 by {
            if i >= a.len() {
                assert(leaf_apps_seq(s)[i] == leaf_apps(s.last())[i - a.len()]);
            }
        }
    }
}

/// Every application name gathered from a subtree is non-empty: windows
/// without a name are left out.
pub proof fn law_app_names_nonempty(n: Node, i: int)
    requires
        0 <= i < leaf_apps(n).len(),
    ensures
        leaf_apps(n)[i].len() > 0,
{
    lemma_leaf_apps_named(n);
}

/// Every workspace in the map was reached in the tree under that name, and
/// maps to the applications of that workspace, which are not none.
pub proof fn law_listed_workspace_found(root: Node, k: Seq<char>)
    requires
        workspace_apps(root).dom().contains(k),
    ensures
        exists|w: Node|
            workspace_in(root, w) && text_or_empty(w.name) == k && workspace_apps(root)[k]
                == leaf_apps(w) && leaf_apps(w).len() > 0,
{
    lemma_fold(root, Map::empty());
}

/// Every workspace reached in the tree that holds at least one application
/// is in the map, under its name.
pub proof fn law_nonempty_workspace_listed(root: Node, w: Node)
    requires
        workspace_in(root, w),
        leaf_apps(w).len() > 0,
    ensures
        workspace_apps(root).dom().contains(text_or_empty(w.name)),
{
    lemma_fold(root, Map::empty());
}

/// Empty workspaces are absent from the map: each listed workspace has at
/// least one application, and every listed application name is non-empty.
pub proof fn law_no_empty_entries(root: Node, k: Seq<char>, i: int)
    requires
        workspace_apps(root).dom().contains(k),
    ensures
        workspace_apps(root)[k].len() > 0,
        0 <= i < workspace_apps(root)[k].len() ==> workspace_apps(root)[k][i].len() > 0,
{
    lemma_fold(root, Map::empty());
    let w = choose|w: Node|
        workspace_in(root, w) && text_or_empty(w.name) == k && workspace_apps(root)[k]
            == leaf_apps(w) && leaf_apps(w).len() > 0;
    lemma_leaf_apps_named(w);
}

/// A window is listed by its app id when it has a non-empty one, and only
/// by its title when it has no app id; it comes before the windows below it.
pub proof fn law_app_id_before_title(n: Node)
    requires
        is_window(n),
        app_name(n).len() > 0,
    ensures
        leaf_apps(n)[0] == (match n.app_id {
            Some(a) => a@,
            None => text_or_empty(n.name),
        }),
{
}

/// A node that is not a window (such as a split container without a pid)
/// adds nothing itself: its list is that of its tiling children followed by
/// that of its floating children.
pub proof fn law_non_windows_pass_through(n: Node)
    requires
        !is_window(n),
    ensures
        leaf_apps(n) == leaf_apps_seq(n.nodes@) + leaf_apps_seq(n.floating_nodes@),
{
    assert(own_app(n) + leaf_apps_seq(n.nodes@) =~= leaf_apps_seq(n.nodes@));
}

/// A tiling or floating container with a process id (any id) and a
/// non-empty app id is listed by that app id, before the windows below it.
pub proof fn law_window_listed_by_app_id(n: Node, a: String)
    requires
        n.node_type == NodeType::Con || n.node_type == NodeType::FloatingCon,
        n.pid is Some,
        n.app_id == Some(a),
        a@.len() > 0,
    ensures
        leaf_apps(n) == seq![a@] + leaf_apps_seq(n.nodes@) + leaf_apps_seq(n.floating_nodes@),
{
}

/// A tiling or floating container with a process id (any id), no app id and
/// a non-empty title is listed by its full title, before the windows below it.
pub proof fn law_window_listed_by_title(n: Node, t: String)
    requires
        n.node_type == NodeType::Con || n.node_type == NodeType::FloatingCon,
        n.pid is Some,
        n.app_id is None,
        n.name == Some(t),
        t@.len() > 0,
    ensures
        leaf_apps(n) == seq![t@] + leaf_apps_seq(n.nodes@) + leaf_apps_seq(n.floating_nodes@),
{
}

/// A node that is neither a tiling nor a floating container, or that has no
/// process id, adds nothing itself.
pub proof fn law_only_containers_with_pid_are_listed(n: Node)
    requires
        !(n.node_type == NodeType::Con || n.node_type == NodeType::FloatingCon) || n.pid is None,
    ensures
        leaf_apps(n) == leaf_apps_seq(n.nodes@) + leaf_apps_seq(n.floating_nodes@),
{
    assert(Seq::<Seq<char>>::empty() + leaf_apps_seq(n.nodes@) =~= leaf_apps_seq(n.nodes@));
}

/// The applications of a list of subtrees are those of each subtree, one
/// after the other: nothing is dropped, reordered or capped.
pub proof fn law_leaf_apps_seq_concatenates(s: Seq<Node>, t: Seq<Node>)
    ensures
        leaf_apps_seq(s + t) == leaf_apps_seq(s) + leaf_apps_seq(t),
    decreases t.len(),
{
    if t.len() == 0 {
        assert(s + t =~= s);
        assert(leaf_apps_seq(s) + leaf_apps_seq(t) =~= leaf_apps_seq(s));
    } else {
        assert((s + t).drop_last() =~= s + t.drop_last());
        assert((s + t).last() == t.last());
        law_leaf_apps_seq_concatenates(s, t.drop_last());
        assert(leaf_apps_seq(s + t) =~= leaf_apps_seq(s) + leaf_apps_seq(t));
    }
}

/// A single subtree lists its own applications, and no subtree lists none.
pub proof fn law_leaf_apps_seq_single(n: Node)
    ensures
        leaf_apps_seq(seq![n]) == leaf_apps(n),
        leaf_apps_seq(Seq::<Node>::empty()) == Seq::<Seq<char>>::empty(),
{
    let s = seq![n];
    assert(s.drop_last() =~= Seq::<Node>::empty());
    assert(s.last() == n);
    assert(leaf_apps_seq(s.drop_last()) == Seq::<Seq<char>>::empty());
    assert(leaf_apps_seq(s) == leaf_apps_seq(s.drop_last()) + leaf_apps(s.last()));
    assert(Seq::<Seq<char>>::empty() + leaf_apps(n) =~= leaf_apps(n));
}

proof fn lemma_workspace_in_seq_member(s: Seq<Node>, i: int, w: Node)
    requires
        0 <= i < s.len(),
        workspace_in(s[i], w),
    ensures
        workspace_in_seq(s, w),
    decreases s.len(),
{
    if i < s.len() - 1 {
        assert(s.drop_last()[i] == s[i]);
        lemma_workspace_in_seq_member(s.drop_last(), i, w);
    }
}

/// A workspace node is reached from itself, and under a node that is not a
/// workspace, every workspace reached from any of its tiling or floating
/// children is reached too.
pub proof fn law_workspaces_reached_through_children(n: Node, i: int, w: Node)
    ensures
        n.node_type == NodeType::Workspace ==> workspace_in(n, n),
        n.node_type != NodeType::Workspace && 0 <= i < n.nodes@.len() && workspace_in(
            n.nodes@[i],
            w,
        ) ==> workspace_in(n, w),
        n.node_type != NodeType::Workspace && 0 <= i < n.floating_nodes@.len() && workspace_in(
            n.floating_nodes@[i],
            w,
        ) ==> workspace_in(n, w),
{
    if n.node_type != NodeType::Workspace && 0 <= i < n.nodes@.len() && workspace_in(
        n.nodes@[i],
        w,
    ) {
        lemma_workspace_in_seq_member(n.nodes@, i, w);
    }
    if n.node_type != NodeType::Workspace && 0 <= i < n.floating_nodes@.len() && workspace_in(
        n.floating_nodes@[i],
        w,
    ) {
        lemma_workspace_in_seq_member(n.floating_nodes@, i, w);
    }
}

} // verus!
