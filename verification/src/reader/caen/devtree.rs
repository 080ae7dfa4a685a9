//! The digitizer's device tree (a JSON document) and the parameter
//! metadata read from it.
//!
//! Each parameter node holds attributes such as `datatype` or `minvalue`,
//! each an object whose `value` member is the attribute's text.

use vstd::prelude::*;

use super::handle::ParamInfo;
use crate::text::{
    eq_ignore_ascii_case, last_nonempty_segment, last_nonempty_segment_of, lower_seq, parse_i32,
    parse_u32, spec_parse_i32, spec_parse_u32, str_eq,
};

verus! {

/// A node of the device tree: an object with its members in document
/// order, a string, or any other JSON value.
#[derive(Debug)]
pub enum DevTreeNode {
    Object(Vec<(String, DevTreeNode)>),
    Str(String),
    Other,
}

/// The node of the first member of `m` named `key`.
pub open spec fn spec_member(m: Seq<(String, DevTreeNode)>, key: Seq<char>) -> Option<DevTreeNode>
    decreases m.len(),
{
    if m.len() == 0 {
        None
    } else if m[0].0@ == key {
        Some(m[0].1)
    } else {
        spec_member(m.drop_first(), key)
    }
}

/// Member `key` of an object node; none for other nodes.
pub open spec fn spec_get(n: DevTreeNode, key: Seq<char>) -> Option<DevTreeNode> {
    match n {
        DevTreeNode::Object(m) => spec_member(m@, key),
        _ => None,
    }
}

/// The text of a string node.
pub open spec fn spec_as_str(n: DevTreeNode) -> Option<Seq<char>> {
    match n {
        DevTreeNode::Str(s) => Some(s@),
        _ => None,
    }
}

/// The text of attribute `attr` of a parameter node: the string `value`
/// of its member `attr`.
pub open spec fn spec_attr(n: DevTreeNode, attr: Seq<char>) -> Option<Seq<char>> {
    match spec_get(n, attr) {
        Some(a) => match spec_get(a, "value"@) {
            Some(v) => spec_as_str(v),
            None => None,
        },
        None => None,
    }
}

/// Views of an optional string.
pub open spec fn opt_view(o: Option<String>) -> Option<Seq<char>> {
    match o {
        Some(s) => Some(s@),
        None => None,
    }
}

/// The allowed values listed in members `m` of an `allowedvalues` node:
/// the string `value` of each member whose name is a number, in order.
pub open spec fn numbered_values(m: Seq<(String, DevTreeNode)>) -> Seq<Seq<char>>
    decreases m.len(),
{
    if m.len() == 0 {
        Seq::empty()
    } else {
        let r = numbered_values(m.drop_last());
        let (k, v) = m.last();
        if spec_parse_u32(k@) is Some && spec_get(v, "value"@) is Some && spec_as_str(
            spec_get(v, "value"@)->0,
        ) is Some {
            r.push(spec_as_str(spec_get(v, "value"@)->0)->0)
        } else {
            r
        }
    }
}

/// Allowed values of a parameter node (none without an `allowedvalues`
/// object).
pub open spec fn allowed_values_of(n: DevTreeNode) -> Seq<Seq<char>> {
    match spec_get(n, "allowedvalues"@) {
        Some(DevTreeNode::Object(m)) => numbered_values(m@),
        _ => Seq::empty(),
    }
}

/// Views of the strings of `v`.
pub open spec fn views_of(v: Seq<String>) -> Seq<Seq<char>> {
    v.map_values(|s: String| s@)
}

/// `info` is the metadata of parameter `name` held by node `n`: the
/// attributes' texts, `UNKNOWN` and `READ_WRITE` for a missing data type
/// and access mode, `setinrun` true when its text is `true` in any case,
/// an empty unit as none, the unit exponent when its text is an integer.
pub open spec fn param_info_is(info: ParamInfo, name: Seq<char>, n: DevTreeNode) -> bool {
    &&& info.name@ == name
    &&& info.datatype@ == match spec_attr(n, "datatype"@) {
        Some(t) => t,
        None => "UNKNOWN"@,
    }
    &&& info.access_mode@ == match spec_attr(n, "accessmode"@) {
        Some(t) => t,
        None => "READ_WRITE"@,
    }
    &&& info.setinrun == match spec_attr(n, "setinrun"@) {
        Some(t) => lower_seq(t) == lower_seq("true"@),
        None => false,
    }
    &&& opt_view(info.min_value) == spec_attr(n, "minvalue"@)
    &&& opt_view(info.max_value) == spec_attr(n, "maxvalue"@)
    &&& opt_view(info.unit) == match spec_attr(n, "uom"@) {
        Some(t) => if t.len() > 0 {
            Some(t)
        } else {
            None
        },
        None => None,
    }
    &&& opt_view(info.increment) == spec_attr(n, "increment"@)
    &&& opt_view(info.default_value) == spec_attr(n, "defaultvalue"@)
    &&& info.expuom == match spec_attr(n, "expuom"@) {
        Some(t) => spec_parse_i32(t),
        None => None,
    }
    &&& views_of(info.allowed_values@) == allowed_values_of(n)
}

/// The metadata extracted from a node takes its texts from the node: when
/// the node's member `accessmode` (resp. `datatype`) has a string `value`
/// `t`, the access mode (resp. data type) is `t`; `READ_WRITE` (resp.
/// `UNKNOWN`) stands only for a missing member. The name is the one asked
/// for.
pub proof fn law_param_info_reads_attributes(info: ParamInfo, name: Seq<char>, n: DevTreeNode, t: Seq<char>)
    requires
        param_info_is(info, name, n),
    ensures
        info.name@ == name,
        (spec_get(n, "accessmode"@) matches Some(a) && spec_get(a, "value"@) matches Some(v)
            && spec_as_str(v) == Some(t)) ==> info.access_mode@ == t,
        spec_get(n, "accessmode"@) is None ==> info.access_mode@ == "READ_WRITE"@,
        (spec_get(n, "datatype"@) matches Some(a) && spec_get(a, "value"@) matches Some(v)
            && spec_as_str(v) == Some(t)) ==> info.datatype@ == t,
        spec_get(n, "datatype"@) is None ==> info.datatype@ == "UNKNOWN"@,
        (spec_get(n, "minvalue"@) matches Some(a) && spec_get(a, "value"@) matches Some(v)
            && spec_as_str(v) == Some(t)) ==> opt_view(info.min_value) == Some(t),
        (spec_get(n, "maxvalue"@) matches Some(a) && spec_get(a, "value"@) matches Some(v)
            && spec_as_str(v) == Some(t)) ==> opt_view(info.max_value) == Some(t),
        (spec_get(n, "increment"@) matches Some(a) && spec_get(a, "value"@) matches Some(v)
            && spec_as_str(v) == Some(t)) ==> opt_view(info.increment) == Some(t),
        (spec_get(n, "setinrun"@) matches Some(a) && spec_get(a, "value"@) matches Some(v)
            && spec_as_str(v) == Some(t)) ==> info.setinrun == (lower_seq(t) == lower_seq("true"@)),
        spec_get(n, "setinrun"@) is None ==> !info.setinrun,
{
}

/// A parameter node: one with a data type or a value.
pub open spec fn is_param_node(n: DevTreeNode) -> bool {
    spec_get(n, "datatype"@) is Some || spec_get(n, "value"@) is Some
}

/// The parameter `name` found from node `n`: a member of that name that is
/// a parameter node; else one found under its first `par` member; else one
/// found under its members in order.
pub open spec fn spec_find(n: DevTreeNode, name: Seq<char>) -> Option<DevTreeNode>
    decreases n,
{
    match n {
        DevTreeNode::Object(v) => {
            let direct = spec_member(v@, name);
            if direct is Some && is_param_node(direct->0) {
                direct
            } else {
                let via_par = spec_find_par(v@, name);
                if via_par is Some {
                    via_par
                } else {
                    spec_find_in(v@, name)
                }
            }
        },
        _ => None,
    }
}

/// The parameter `name` found under the first member of `m` named `par`.
pub open spec fn spec_find_par(m: Seq<(String, DevTreeNode)>, name: Seq<char>) -> Option<
    DevTreeNode,
>
    decreases m,
{
    if m.len() == 0 {
        None
    } else if m[0].0@ == "par"@ {
        spec_find(m[0].1, name)
    } else {
        spec_find_par(m.drop_first(), name)
    }
}

/// The parameter `name` found under the first member of `m` under which
/// one is found.
pub open spec fn spec_find_in(m: Seq<(String, DevTreeNode)>, name: Seq<char>) -> Option<
    DevTreeNode,
>
    decreases m,
{
    if m.len() == 0 {
        None
    } else {
        match spec_find(m[0].1, name) {
            Some(p) => Some(p),
            None => spec_find_in(m.drop_first(), name),
        }
    }
}

/// Whatever the search finds is a parameter node, and a member with the
/// name that is itself a parameter node is found ahead of anything under
/// `par` or deeper members.
pub proof fn law_find_gives_param_node(n: DevTreeNode, name: Seq<char>)
    ensures
        spec_find(n, name) matches Some(r) ==> is_param_node(r),
        (spec_get(n, name) is Some && is_param_node(spec_get(n, name)->0)) ==> spec_find(n, name)
            == spec_get(n, name),
    decreases n,
{
    if let DevTreeNode::Object(v) = n {
        lemma_find_par_param(v@, name);
        lemma_find_in_param(v@, name);
    }
}

proof fn lemma_find_par_param(m: Seq<(String, DevTreeNode)>, name: Seq<char>)
    ensures
        spec_find_par(m, name) matches Some(r) ==> is_param_node(r),
    decreases m,
{
    if m.len() > 0 {
        if m[0].0@ == "par"@ {
            law_find_gives_param_node(m[0].1, name);
        } else {
            lemma_find_par_param(m.drop_first(), name);
        }
    }
}

proof fn lemma_find_in_param(m: Seq<(String, DevTreeNode)>, name: Seq<char>)
    ensures
        spec_find_in(m, name) matches Some(r) ==> is_param_node(r),
    decreases m,
{
    if m.len() > 0 {
        law_find_gives_param_node(m[0].1, name);
        lemma_find_in_param(m.drop_first(), name);
    }
}

impl DevTreeNode {
    /// Member `key` of an object node.
    pub fn get(&self, key: &str) -> (r: Option<&DevTreeNode>)
        ensures
            match r {
                Some(c) => spec_get(*self, key@) == Some(*c),
                None => spec_get(*self, key@) is None,
            },
    {
        match self {
            DevTreeNode::Object(m) => {
                assert(*self == DevTreeNode::Object(*m));
                let mut i: usize = 0;
                assert(m@.skip(0) =~= m@);
                while i < m.len()
                    invariant
                        *self == DevTreeNode::Object(*m),
                        i <= m@.len(),
                        spec_member(m@, key@) == spec_member(m@.skip(i as int), key@),
                    decreases m@.len() - i,
                {
                    assert(m@.skip(i as int).drop_first() =~= m@.skip(i + 1));
                    assert(m@.skip(i as int)[0] == m@[i as int]);
                    if str_eq(m[i].0.as_str(), key) {
                        assert(m@[i as int].0@ == key@);
                        assert(spec_member(m@.skip(i as int), key@) == Some(m@[i as int].1));
                        return Some(&m[i].1);
                    }
                    i = i + 1;
                }
                None
            },
            _ => None,
        }
    }

    /// Text of a string node.
    pub fn as_str(&self) -> (r: Option<&String>)
        ensures
            match r {
                Some(s) => spec_as_str(*self) == Some(s@),
                None => spec_as_str(*self) is None,
            },
    {
        match self {
            DevTreeNode::Str(s) => Some(s),
            _ => None,
        }
    }
}

/// Find parameter `name` from node `n`: a member of that name that is a
/// parameter node, else one under the first `par` member, else one under
/// the members in order.
pub fn find_param_in_tree<'a>(n: &'a DevTreeNode, name: &str) -> (r: Option<&'a DevTreeNode>)
    ensures
        match r {
            Some(p) => spec_find(*n, name@) == Some(*p),
            None => spec_find(*n, name@) is None,
        },
    decreases n,
{
    match n {
        DevTreeNode::Object(m) => {
            match n.get(name) {
                Some(p) => {
                    if p.get("datatype").is_some() || p.get("value").is_some() {
                        return Some(p);
                    }
                },
                None => {},
            }
            let ghost direct = spec_member(m@, name@);
            assert(!(direct is Some && is_param_node(direct->0)));
            let mut i: usize = 0;
            let mut par_seen = false;
            assert(m@.skip(0) =~= m@);
            while i < m.len() && !par_seen
                invariant
                    *n == DevTreeNode::Object(*m),
                    direct == spec_member(m@, name@),
                    !(direct is Some && is_param_node(direct->0)),
                    i <= m@.len(),
                    par_seen ==> spec_find_par(m@, name@) is None,
                    !par_seen ==> spec_find_par(m@, name@) == spec_find_par(
                        m@.skip(i as int),
                        name@,
                    ),
                decreases m@.len() - i,
            {
                assert(m@.skip(i as int).drop_first() =~= m@.skip(i + 1));
                assert(m@.skip(i as int)[0] == m@[i as int]);
                if str_eq(m[i].0.as_str(), "par") {
                    match find_param_in_tree(&m[i].1, name) {
                        Some(p) => {
                            return Some(p);
                        },
                        None => {
                            par_seen = true;
                        },
                    }
                }
                i = i + 1;
            }
            let mut j: usize = 0;
            assert(m@.skip(0) =~= m@);
            while j < m.len()
                invariant
                    *n == DevTreeNode::Object(*m),
                    direct == spec_member(m@, name@),
                    !(direct is Some && is_param_node(direct->0)),
                    spec_find_par(m@, name@) is None,
                    j <= m@.len(),
                    spec_find_in(m@, name@) == spec_find_in(m@.skip(j as int), name@),
                decreases m@.len() - j,
            {
                assert(m@.skip(j as int).drop_first() =~= m@.skip(j + 1));
                assert(m@.skip(j as int)[0] == m@[j as int]);
                match find_param_in_tree(&m[j].1, name) {
                    Some(p) => {
                        return Some(p);
                    },
                    None => {},
                }
                j = j + 1;
            }
            None
        },
        _ => None,
    }
}

/// Text of attribute `attr` of parameter node `n`.
pub fn attr_value(n: &DevTreeNode, attr: &str) -> (r: Option<String>)
    ensures
        opt_view(r) == spec_attr(*n, attr@),
{
    match n.get(attr) {
        Some(a) => match a.get("value") {
            Some(v) => match v.as_str() {
                Some(s) => Some(s.clone()),
                None => None,
            },
            None => None,
        },
        None => None,
    }
}

/// The allowed values of node `n`, in member order.
fn allowed_values(n: &DevTreeNode) -> (r: Vec<String>)
    ensures
        views_of(r@) == allowed_values_of(*n),
{
    let mut out: Vec<String> = Vec::new();
    match n.get("allowedvalues") {
        Some(av) => match av {
            DevTreeNode::Object(m) => {
                let mut i: usize = 0;
                while i < m.len()
                    invariant
                        i <= m@.len(),
                        views_of(out@) == numbered_values(m@.take(i as int)),
                    decreases m@.len() - i,
                {
                    let ghost t = m@.take(i + 1);
                    assert(t.drop_last() =~= m@.take(i as int));
                    assert(t.last() == m@[i as int]);
                    let key = &m[i].0;
                    if parse_u32(key.as_str()).is_some() {
                        match m[i].1.get("value") {
                            Some(v) => match v.as_str() {
                                Some(s) => {
                                    out.push(s.clone());
                                    assert(views_of(out@) =~= views_of(out@.drop_last()).push(
                                        s@,
                                    ));
                                },
                                None => {},
                            },
                            None => {},
                        }
                    }
                    i = i + 1;
                }
                assert(m@.take(m@.len() as int) =~= m@);
            },
            _ => {
                assert(views_of(out@) =~= Seq::<Seq<char>>::empty());
            },
        },
        None => {
            assert(views_of(out@) =~= Seq::<Seq<char>>::empty());
        },
    }
    out
}

/// The metadata of parameter `name` held by node `n`.
pub fn extract_param_info(name: &str, n: &DevTreeNode) -> (info: ParamInfo)
    ensures
        param_info_is(info, name@, *n),
{
    let datatype = match attr_value(n, "datatype") {
        Some(t) => t,
        None => "UNKNOWN".to_owned(),
    };
    let access_mode = match attr_value(n, "accessmode") {
        Some(t) => t,
        None => "READ_WRITE".to_owned(),
    };
    let setinrun = match attr_value(n, "setinrun") {
        Some(t) => eq_ignore_ascii_case(t.as_str(), "true"),
        None => false,
    };
    let unit = match attr_value(n, "uom") {
        Some(t) => {
            if t.as_str().is_empty() {
                None
            } else {
                Some(t)
            }
        },
        None => None,
    };
    let expuom = match attr_value(n, "expuom") {
        Some(t) => parse_i32(t.as_str()),
        None => None,
    };
    ParamInfo {
        name: name.to_owned(),
        datatype,
        access_mode,
        setinrun,
        min_value: attr_value(n, "minvalue"),
        max_value: attr_value(n, "maxvalue"),
        allowed_values: allowed_values(n),
        unit,
        increment: attr_value(n, "increment"),
        default_value: attr_value(n, "defaultvalue"),
        expuom,
    }
}

/// The parameter named by the last non-empty segment of `path`, found
/// from the device-tree root `tree`, with its metadata; none when the tree
/// holds no such parameter.
pub fn param_info_in_tree(tree: &DevTreeNode, path: &str) -> (r: Option<ParamInfo>)
    ensures
        match spec_find(*tree, last_nonempty_segment(path@)) {
            Some(n) => r matches Some(info) && param_info_is(info, last_nonempty_segment(path@), n),
            None => r is None,
        },
{
    let name = last_nonempty_segment_of(path);
    match find_param_in_tree(tree, name.as_str()) {
        Some(n) => Some(extract_param_info(name.as_str(), n)),
        None => None,
    }
}

/// The first entry of `s` for parameter `name`.
pub open spec fn spec_lookup(s: Seq<ParamInfo>, name: Seq<char>) -> Option<ParamInfo>
    decreases s.len(),
{
    if s.len() == 0 {
        None
    } else if s[0].name@ == name {
        Some(s[0])
    } else {
        spec_lookup(s.drop_first(), name)
    }
}

/// Parameter metadata by name.
#[derive(Debug)]
pub struct ParamCache {
    pub entries: Vec<ParamInfo>,
}

impl ParamCache {
    /// No name occurs twice.
    pub open spec fn wf(&self) -> bool {
        forall|i: int, j: int|
            0 <= i < j < self.entries@.len() ==> self.entries@[i].name@ != self.entries@[j].name@
    }

    /// The metadata held for `name`.
    pub open spec fn lookup(&self, name: Seq<char>) -> Option<ParamInfo> {
        spec_lookup(self.entries@, name)
    }

    /// An empty cache.
    pub fn new() -> (c: Self)
        ensures
            c.wf(),
            forall|k: Seq<char>| #[trigger] c.lookup(k) is None,
    {
        ParamCache { entries: Vec::new() }
    }

    /// Number of parameters held.
    pub fn len(&self) -> (n: usize)
        ensures
            n == self.entries@.len(),
    {
        self.entries.len()
    }

    /// Index of the entry for `name`, if any.
    fn position(&self, name: &str) -> (r: Option<usize>)
        ensures
            match r {
                Some(i) => i < self.entries@.len() && self.entries@[i as int].name@ == name@
                    && self.lookup(name@) == Some(self.entries@[i as int]),
                None => self.lookup(name@) is None,
            },
    {
        let mut i: usize = 0;
        assert(self.entries@.skip(0) =~= self.entries@);
        while i < self.entries.len()
            invariant
                i <= self.entries@.len(),
                self.lookup(name@) == spec_lookup(self.entries@.skip(i as int), name@),
            decreases self.entries@.len() - i,
        {
            assert(self.entries@.skip(i as int).drop_first() =~= self.entries@.skip(i + 1));
            assert(self.entries@.skip(i as int)[0] == self.entries@[i as int]);
            if str_eq(self.entries[i].name.as_str(), name) {
                return Some(i);
            }
            i = i + 1;
        }
        None
    }

    /// The metadata held for `name`.
    pub fn get(&self, name: &str) -> (r: Option<&ParamInfo>)
        ensures
            match r {
                Some(info) => self.lookup(name@) == Some(*info),
                None => self.lookup(name@) is None,
            },
    {
        match self.position(name) {
            Some(i) => Some(&self.entries[i]),
            None => None,
        }
    }

    /// Whether metadata is held for `name`.
    pub fn contains_key(&self, name: &str) -> (r: bool)
        ensures
            r == self.lookup(name@) is Some,
    {
        self.position(name).is_some()
    }

    /// Hold `info` under its name, replacing what was held for it.
    pub fn insert(&mut self, info: ParamInfo)
        requires
            old(self).wf(),
        ensures
            final(self).wf(),
            final(self).lookup(info.name@) == Some(info),
            forall|k: Seq<char>|
                k != info.name@ ==> #[trigger] final(self).lookup(k) == old(self).lookup(k),
    {
        let ghost old_entries = self.entries@;
        match self.position(info.name.as_str()) {
            Some(i) => {
                proof {
                    assert forall|k: Seq<char>| k != info.name@ implies #[trigger] spec_lookup(
                        old_entries.update(i as int, info),
                        k,
                    ) == spec_lookup(old_entries, k) by {
                        lemma_lookup_other_update(old_entries, i as int, info, k);
                    }
                    lemma_lookup_unique(old_entries.update(i as int, info), i as int);
                }
                self.entries.set(i, info);
            },
            None => {
                proof {
                    assert forall|k: Seq<char>| k != info.name@ implies #[trigger] spec_lookup(
                        old_entries.push(info),
                        k,
                    ) == spec_lookup(old_entries, k) by {
                        lemma_lookup_push(old_entries, info, k);
                    }
                    lemma_lookup_push(old_entries, info, info.name@);
                    assert forall|j: int| 0 <= j < old_entries.len() implies old_entries[j].name@
                        != info.name@ by {
                        lemma_lookup_finds(old_entries, j);
                    }
                }
                self.entries.push(info);
            },
        }
    }
}

/// Members of an object node (none for other nodes or none at all).
pub open spec fn object_members(n: Option<DevTreeNode>) -> Seq<(String, DevTreeNode)> {
    match n {
        Some(DevTreeNode::Object(m)) => m@,
        _ => Seq::empty(),
    }
}

/// Board parameter nodes: the members of the root's `par`.
pub open spec fn board_members(tree: DevTreeNode) -> Seq<(String, DevTreeNode)> {
    object_members(spec_get(tree, "par"@))
}

/// Channel parameter nodes: the members of the root's `ch` / `0` / `par`
/// (the metadata is the same for every channel).
pub open spec fn channel_members(tree: DevTreeNode) -> Seq<(String, DevTreeNode)> {
    object_members(
        match spec_get(tree, "ch"@) {
            Some(c) => match spec_get(c, "0"@) {
                Some(z) => spec_get(z, "par"@),
                None => None,
            },
            None => None,
        },
    )
}

/// A member that describes a parameter: not the `handle` member, an
/// object with a data type.
pub open spec fn is_cacheable(m: (String, DevTreeNode)) -> bool {
    &&& m.0@ != "handle"@
    &&& m.1 is Object
    &&& spec_get(m.1, "datatype"@) is Some
}

/// Node of the last parameter member of `m` named `k`.
pub open spec fn last_cacheable(m: Seq<(String, DevTreeNode)>, k: Seq<char>) -> Option<DevTreeNode>
    decreases m.len(),
{
    if m.len() == 0 {
        None
    } else if m.last().0@ == k && is_cacheable(m.last()) {
        Some(m.last().1)
    } else {
        last_cacheable(m.drop_last(), k)
    }
}

/// Node of the first parameter member of `m` named `k`.
pub open spec fn first_cacheable(m: Seq<(String, DevTreeNode)>, k: Seq<char>) -> Option<
    DevTreeNode,
>
    decreases m.len(),
{
    if m.len() == 0 {
        None
    } else if m[0].0@ == k && is_cacheable(m[0]) {
        Some(m[0].1)
    } else {
        first_cacheable(m.drop_first(), k)
    }
}

/// The node whose metadata the cache holds for parameter `k`: the board
/// parameter (the last of that name), else the channel parameter (the
/// first of that name).
pub open spec fn cache_source(tree: DevTreeNode, k: Seq<char>) -> Option<DevTreeNode> {
    match last_cacheable(board_members(tree), k) {
        Some(n) => Some(n),
        None => first_cacheable(channel_members(tree), k),
    }
}

proof fn lemma_first_cacheable_push(m: Seq<(String, DevTreeNode)>, x: (String, DevTreeNode), k: Seq<char>)
    ensures
        first_cacheable(m.push(x), k) == match first_cacheable(m, k) {
            Some(n) => Some(n),
            None => if x.0@ == k && is_cacheable(x) {
                Some(x.1)
            } else {
                None
            },
        },
    decreases m.len(),
{
    let t = m.push(x);
    if m.len() > 0 {
        assert(t[0] == m[0]);
        assert(t.drop_first() =~= m.drop_first().push(x));
        lemma_first_cacheable_push(m.drop_first(), x, k);
        if !(m[0].0@ == k && is_cacheable(m[0])) {
            assert(first_cacheable(t, k) == first_cacheable(t.drop_first(), k));
        }
    } else {
        assert(t[0] == x);
        assert(t.drop_first() =~= Seq::<(String, DevTreeNode)>::empty());
        assert(first_cacheable(t.drop_first(), k) is None);
    }
}

/// The members of an object node.
fn members_of(n: Option<&DevTreeNode>) -> (r: Option<&Vec<(String, DevTreeNode)>>)
    ensures
        match r {
            Some(m) => object_members(
                match n {
                    Some(x) => Some(*x),
                    None => None,
                },
            ) == m@,
            None => object_members(
                match n {
                    Some(x) => Some(*x),
                    None => None,
                },
            ) == Seq::<(String, DevTreeNode)>::empty(),
        },
{
    match n {
        Some(DevTreeNode::Object(m)) => Some(m),
        _ => None,
    }
}

/// Metadata of every parameter of the device tree `tree`: the board
/// parameters, and the channel parameters of channel 0 that no board
/// parameter of the same name shadows.
pub fn build_param_cache(tree: &DevTreeNode) -> (c: ParamCache)
    ensures
        c.wf(),
        forall|k: Seq<char>|
            match #[trigger] c.lookup(k) {
                Some(info) => cache_source(*tree, k) matches Some(n) && param_info_is(info, k, n),
                None => cache_source(*tree, k) is None,
            },
{
    let mut cache = ParamCache::new();
    let ghost board = board_members(*tree);
    let ghost chan = channel_members(*tree);
    match members_of(tree.get("par")) {
        Some(m) => {
            let mut i: usize = 0;
            while i < m.len()
                invariant
                    m@ == board,
                    i <= m@.len(),
                    cache.wf(),
                    forall|k: Seq<char>|
                        match #[trigger] cache.lookup(k) {
                            Some(info) => last_cacheable(board.take(i as int), k) matches Some(n)
                                && param_info_is(info, k, n),
                            None => last_cacheable(board.take(i as int), k) is None,
                        },
                decreases m@.len() - i,
            {
                let ghost t = board.take(i + 1);
                assert(t.drop_last() =~= board.take(i as int));
                assert(t.last() == m@[i as int]);
                let name = &m[i].0;
                let node = &m[i].1;
                if !str_eq(name.as_str(), "handle") && node.get("datatype").is_some() && match node {
                    DevTreeNode::Object(_) => true,
                    _ => false,
                } {
                    let info = extract_param_info(name.as_str(), node);
                    cache.insert(info);
                }
                i = i + 1;
            }
            assert(board.take(board.len() as int) =~= board);
        },
        None => {
            assert forall|k: Seq<char>| #[trigger] last_cacheable(board, k) is None by {}
        },
    }
    let ch0 = match tree.get("ch") {
        Some(c) => match c.get("0") {
            Some(z) => z.get("par"),
            None => None,
        },
        None => None,
    };
    match members_of(ch0) {
        Some(m) => {
            let mut j: usize = 0;
            assert(chan.take(0) =~= Seq::<(String, DevTreeNode)>::empty());
            while j < m.len()
                invariant
                    m@ == chan,
                    j <= m@.len(),
                    cache.wf(),
                    forall|k: Seq<char>|
                        match #[trigger] cache.lookup(k) {
                            Some(info) => (match last_cacheable(board, k) {
                                Some(n) => Some(n),
                                None => first_cacheable(chan.take(j as int), k),
                            }) matches Some(n) && param_info_is(info, k, n),
                            None => last_cacheable(board, k) is None && first_cacheable(
                                chan.take(j as int),
                                k,
                            ) is None,
                        },
                decreases m@.len() - j,
            {
                assert(chan.take(j + 1) =~= chan.take(j as int).push(m@[j as int]));
                proof {
                    assert forall|k: Seq<char>| true implies #[trigger] first_cacheable(
                        chan.take(j + 1),
                        k,
                    ) == match first_cacheable(chan.take(j as int), k) {
                        Some(n) => Some(n),
                        None => if m@[j as int].0@ == k && is_cacheable(m@[j as int]) {
                            Some(m@[j as int].1)
                        } else {
                            None
                        },
                    } by {
                        lemma_first_cacheable_push(chan.take(j as int), m@[j as int], k);
                    }
                }
                let name = &m[j].0;
                let node = &m[j].1;
                if !str_eq(name.as_str(), "handle") && node.get("datatype").is_some() && match node {
                    DevTreeNode::Object(_) => true,
                    _ => false,
                } && !cache.contains_key(name.as_str()) {
                    let info = extract_param_info(name.as_str(), node);
                    cache.insert(info);
                }
                j = j + 1;
            }
            assert(chan.take(chan.len() as int) =~= chan);
        },
        None => {
            assert forall|k: Seq<char>| #[trigger] first_cacheable(chan, k) is None by {}
        },
    }
    cache
}

proof fn lemma_lookup_finds(s: Seq<ParamInfo>, j: int)
    requires
        0 <= j < s.len(),
    ensures
        spec_lookup(s, s[j].name@) is Some,
    decreases s.len(),
{
    if j > 0 && s[0].name@ != s[j].name@ {
        lemma_lookup_finds(s.drop_first(), j - 1);
    }
}

proof fn lemma_lookup_unique(s: Seq<ParamInfo>, i: int)
    requires
        0 <= i < s.len(),
        forall|a: int, b: int| 0 <= a < b < s.len() ==> s[a].name@ != s[b].name@,
    ensures
        spec_lookup(s, s[i].name@) == Some(s[i]),
    decreases s.len(),
{
    if i > 0 {
        lemma_lookup_unique(s.drop_first(), i - 1);
    }
}

proof fn lemma_lookup_other_update(s: Seq<ParamInfo>, i: int, info: ParamInfo, k: Seq<char>)
    requires
        0 <= i < s.len(),
        s[i].name@ == info.name@,
        k != info.name@,
    ensures
        spec_lookup(s.update(i, info), k) == spec_lookup(s, k),
    decreases s.len(),
{
    if s.len() > 0 && i > 0 {
        assert(s.update(i, info).drop_first() =~= s.drop_first().update(i - 1, info));
        lemma_lookup_other_update(s.drop_first(), i - 1, info, k);
    } else if s.len() > 0 {
        assert(s.update(i, info).drop_first() =~= s.drop_first());
    }
}

proof fn lemma_lookup_push(s: Seq<ParamInfo>, info: ParamInfo, k: Seq<char>)
    ensures
        spec_lookup(s.push(info), k) == match spec_lookup(s, k) {
            Some(x) => Some(x),
            None => if info.name@ == k {
                Some(info)
            } else {
                None
            },
        },
    decreases s.len(),
{
    let t = s.push(info);
    if s.len() > 0 {
        assert(t[0] == s[0]);
        assert(t.drop_first() =~= s.drop_first().push(info));
        lemma_lookup_push(s.drop_first(), info, k);
        if s[0].name@ == k {
            assert(spec_lookup(t, k) == Some(s[0]));
        } else {
            assert(spec_lookup(t, k) == spec_lookup(t.drop_first(), k));
        }
    } else {
        assert(t[0] == info);
        assert(t.drop_first() =~= Seq::<ParamInfo>::empty());
        assert(spec_lookup(t.drop_first(), k) is None);
    }
}

} // verus!
