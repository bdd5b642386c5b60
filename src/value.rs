//! The structured encoding of a descriptor: a generic nested value with
//! `group` and `target` tables, and the decoding that reads one back.

use vstd::prelude::*;
use vstd::string::StringExecFns;
use crate::bake::{BakeFile, BakeView, Group, Target, TargetView, contexts_view, pair_views};
use crate::text::views;

verus! {

/// A generic nested value: text, a list, or an object of named fields.
#[derive(Debug, PartialEq)]
pub enum Value {
    String(String),
    Array(Vec<Value>),
    Object(Vec<(String, Value)>),
}

/// `v` is the text `s`.
pub open spec fn is_text(v: Value, s: Seq<char>) -> bool {
    match v {
        Value::String(x) => x@ == s,
        _ => false,
    }
}

/// `v` is the list of texts `items`.
pub open spec fn is_text_list(v: Value, items: Seq<Seq<char>>) -> bool {
    match v {
        Value::Array(a) => a@.len() == items.len() && forall|i: int|
            0 <= i < items.len() ==> is_text(#[trigger] a@[i], items[i]),
        _ => false,
    }
}

/// `v` is the object whose fields are the texts of `pairs`, in order.
pub open spec fn is_text_object(v: Value, pairs: Seq<(Seq<char>, Seq<char>)>) -> bool {
    match v {
        Value::Object(f) => f@.len() == pairs.len() && forall|i: int|
            0 <= i < pairs.len() ==> (#[trigger] f@[i]).0@ == pairs[i].0 && is_text(f@[i].1, pairs[i].1),
        _ => false,
    }
}

/// The encoding of a target: `context`, `dockerfile`, `tags`, `depends_on`,
/// then `contexts` where the target has named contexts.
pub open spec fn encodes_target(v: Value, t: TargetView) -> bool {
    match v {
        Value::Object(f) => {
            &&& f@.len() == (if t.contexts is Some { 5int } else { 4int })
            &&& f@[0].0@ == "context"@ && is_text(f@[0].1, t.context)
            &&& f@[1].0@ == "dockerfile"@ && is_text(f@[1].1, t.dockerfile)
            &&& f@[2].0@ == "tags"@ && is_text_list(f@[2].1, t.tags)
            &&& f@[3].0@ == "depends_on"@ && is_text_list(f@[3].1, t.depends_on)
            &&& t.contexts matches Some(c) ==> f@[4].0@ == "contexts"@ && is_text_object(f@[4].1, c)
        },
        _ => false,
    }
}

/// The encoding of a group: its `targets` list.
pub open spec fn encodes_group(v: Value, targets: Seq<Seq<char>>) -> bool {
    match v {
        Value::Object(f) => f@.len() == 1 && f@[0].0@ == "targets"@ && is_text_list(f@[0].1, targets),
        _ => false,
    }
}

/// The encoding of a descriptor: a `group` object with one field per group
/// and a `target` object with one field per target, in table order.
pub open spec fn encodes_bake(v: Value, b: BakeView) -> bool {
    match v {
        Value::Object(f) => {
            &&& f@.len() == 2
            &&& f@[0].0@ == "group"@
            &&& f@[1].0@ == "target"@
            &&& match f@[0].1 {
                Value::Object(g) => g@.len() == b.groups.len() && forall|i: int|
                    0 <= i < g@.len() ==> (#[trigger] g@[i]).0@ == b.groups[i].0 && encodes_group(
                        g@[i].1,
                        b.groups[i].1,
                    ),
                _ => false,
            }
            &&& match f@[1].1 {
                Value::Object(t) => t@.len() == b.targets.len() && forall|i: int|
                    0 <= i < t@.len() ==> (#[trigger] t@[i]).0@ == b.targets[i].0 && encodes_target(
                        t@[i].1,
                        b.targets[i].1,
                    ),
                _ => false,
            }
        },
        _ => false,
    }
}

} // verus!

verus! {

fn text(s: &String) -> (r: Value)
    ensures
        is_text(r, s@),
{
    Value::String(s.clone())
}

fn text_list(items: &Vec<String>) -> (r: Value)
    ensures
        is_text_list(r, views(items@)),
{
    let mut a: Vec<Value> = Vec::new();
    let mut i: usize = 0;
    while i < items.len()
        invariant
            i <= items.len(),
            a@.len() == i,
            forall|j: int| 0 <= j < i ==> is_text(#[trigger] a@[j], items@[j]@),
        decreases items.len() - i,
    {
        a.push(text(&items[i]));
        i += 1;
    }
    Value::Array(a)
}

fn text_object(pairs: &Vec<(String, String)>) -> (r: Value)
    ensures
        is_text_object(r, pair_views(pairs@)),
{
    let mut f: Vec<(String, Value)> = Vec::new();
    let mut i: usize = 0;
    while i < pairs.len()
        invariant
            i <= pairs.len(),
            f@.len() == i,
            forall|j: int|
                0 <= j < i ==> (#[trigger] f@[j]).0@ == pairs@[j].0@ && is_text(f@[j].1, pairs@[j].1@),
        decreases pairs.len() - i,
    {
        f.push((pairs[i].0.clone(), text(&pairs[i].1)));
        i += 1;
    }
    Value::Object(f)
}

fn key(s: &str) -> (r: String)
    ensures
        r@ == s@,
{
    String::from_str(s)
}

impl Target {
    /// The structured encoding of the target.
    pub fn to_hcl(&self) -> (r: Value)
        ensures
            encodes_target(r, self@),
    {
        let mut f: Vec<(String, Value)> = Vec::new();
        f.push((key("context"), text(&self.context)));
        f.push((key("dockerfile"), text(&self.dockerfile)));
        f.push((key("tags"), text_list(&self.tags)));
        f.push((key("depends_on"), text_list(&self.depends_on)));
        match &self.contexts {
            Some(c) => {
                f.push((key("contexts"), text_object(c)));
            },
            None => {},
        }
        Value::Object(f)
    }
}

impl BakeFile {
    /// The structured encoding of the descriptor.
    pub fn to_value(&self) -> (r: Value)
        ensures
            encodes_bake(r, self@),
    {
        let mut groups: Vec<(String, Value)> = Vec::new();
        let mut i: usize = 0;
        while i < self.group.len()
            invariant
                i <= self.group.len(),
                groups@.len() == i,
                forall|j: int|
                    0 <= j < i ==> (#[trigger] groups@[j]).0@ == self@.groups[j].0 && encodes_group(
                        groups@[j].1,
                        self@.groups[j].1,
                    ),
            decreases self.group.len() - i,
        {
            let mut g: Vec<(String, Value)> = Vec::new();
            g.push((key("targets"), text_list(&self.group[i].1.targets)));
            groups.push((self.group[i].0.clone(), Value::Object(g)));
            i += 1;
        }
        let mut targets: Vec<(String, Value)> = Vec::new();
        let mut j: usize = 0;
        while j < self.target.len()
            invariant
                j <= self.target.len(),
                targets@.len() == j,
                forall|k: int|
                    0 <= k < j ==> (#[trigger] targets@[k]).0@ == self@.targets[k].0 && encodes_target(
                        targets@[k].1,
                        self@.targets[k].1,
                    ),
            decreases self.target.len() - j,
        {
            targets.push((self.target[j].0.clone(), self.target[j].1.to_hcl()));
            j += 1;
        }
        let mut f: Vec<(String, Value)> = Vec::new();
        f.push((key("group"), Value::Object(groups)));
        f.push((key("target"), Value::Object(targets)));
        Value::Object(f)
    }
}

} // verus!

verus! {

/// The first field named `key`.
pub open spec fn field(f: Seq<(String, Value)>, key: Seq<char>) -> Option<Value>
    decreases f.len(),
{
    if f.len() == 0 {
        None
    } else if f[0].0@ == key {
        Some(f[0].1)
    } else {
        field(f.skip(1), key)
    }
}

pub open spec fn text_of(v: Value) -> Option<Seq<char>> {
    match v {
        Value::String(s) => Some(s@),
        _ => None,
    }
}

pub open spec fn text_list_of(v: Value) -> Option<Seq<Seq<char>>> {
    match v {
        Value::Array(a) => if forall|i: int| 0 <= i < a@.len() ==> #[trigger] text_of(a@[i]) is Some {
            Some(Seq::new(a@.len(), |i: int| text_of(a@[i])->0))
        } else {
            None
        },
        _ => None,
    }
}

pub open spec fn text_object_of(v: Value) -> Option<Seq<(Seq<char>, Seq<char>)>> {
    match v {
        Value::Object(f) => if forall|i: int| 0 <= i < f@.len() ==> #[trigger] text_of(f@[i].1) is Some {
            Some(Seq::new(f@.len(), |i: int| (f@[i].0@, text_of(f@[i].1)->0)))
        } else {
            None
        },
        _ => None,
    }
}

pub open spec fn field_text(f: Seq<(String, Value)>, key: Seq<char>) -> Option<Seq<char>> {
    match field(f, key) {
        Some(v) => text_of(v),
        None => None,
    }
}

pub open spec fn field_text_list(f: Seq<(String, Value)>, key: Seq<char>) -> Option<Seq<Seq<char>>> {
    match field(f, key) {
        Some(v) => text_list_of(v),
        None => None,
    }
}

/// The named contexts of a decoded target: absent, or an object of texts;
/// the outer `None` marks a field of another shape.
pub open spec fn field_contexts(f: Seq<(String, Value)>) -> Option<Option<Seq<(Seq<char>, Seq<char>)>>> {
    match field(f, "contexts"@) {
        None => Some(None),
        Some(v) => match text_object_of(v) {
            Some(p) => Some(Some(p)),
            None => None,
        },
    }
}

/// Reads a target back from its structured encoding; fields are found by
/// name, in any order.
pub open spec fn decode_target(v: Value) -> Option<TargetView> {
    match v {
        Value::Object(f) => {
            let f = f@;
            if field_text(f, "context"@) is Some && field_text(f, "dockerfile"@) is Some
                && field_text_list(f, "tags"@) is Some && field_text_list(f, "depends_on"@) is Some
                && field_contexts(f) is Some {
                Some(
                    TargetView {
                        context: field_text(f, "context"@)->0,
                        dockerfile: field_text(f, "dockerfile"@)->0,
                        tags: field_text_list(f, "tags"@)->0,
                        depends_on: field_text_list(f, "depends_on"@)->0,
                        contexts: field_contexts(f)->0,
                    },
                )
            } else {
                None
            }
        },
        _ => None,
    }
}

pub open spec fn decode_group(v: Value) -> Option<Seq<Seq<char>>> {
    match v {
        Value::Object(f) => field_text_list(f@, "targets"@),
        _ => None,
    }
}

pub open spec fn decode_groups(v: Value) -> Option<Seq<(Seq<char>, Seq<Seq<char>>)>> {
    match v {
        Value::Object(g) => if forall|i: int| 0 <= i < g@.len() ==> #[trigger] decode_group(g@[i].1) is Some {
            Some(Seq::new(g@.len(), |i: int| (g@[i].0@, decode_group(g@[i].1)->0)))
        } else {
            None
        },
        _ => None,
    }
}

pub open spec fn decode_targets(v: Value) -> Option<Seq<(Seq<char>, TargetView)>> {
    match v {
        Value::Object(t) => if forall|i: int| 0 <= i < t@.len() ==> #[trigger] decode_target(t@[i].1) is Some {
            Some(Seq::new(t@.len(), |i: int| (t@[i].0@, decode_target(t@[i].1)->0)))
        } else {
            None
        },
        _ => None,
    }
}

/// Reads a descriptor back from its structured encoding.
pub open spec fn decode_bake(v: Value) -> Option<BakeView> {
    match v {
        Value::Object(f) => match (field(f@, "group"@), field(f@, "target"@)) {
            (Some(g), Some(t)) => match (decode_groups(g), decode_targets(t)) {
                (Some(groups), Some(targets)) => Some(BakeView { groups, targets }),
                _ => None,
            },
            _ => None,
        },
        _ => None,
    }
}

proof fn lemma_field_at(f: Seq<(String, Value)>, key: Seq<char>, i: int)
    requires
        0 <= i < f.len(),
        f[i].0@ == key,
        forall|j: int| 0 <= j < i ==> (#[trigger] f[j]).0@ != key,
    ensures
        field(f, key) == Some(f[i].1),
    decreases i,
{
    if i > 0 {
        assert forall|j: int| 0 <= j < i - 1 implies (#[trigger] f.skip(1)[j]).0@ != key by {
            assert(f.skip(1)[j] == f[j + 1]);
        }
        lemma_field_at(f.skip(1), key, i - 1);
    }
}

proof fn lemma_field_absent(f: Seq<(String, Value)>, key: Seq<char>)
    requires
        forall|j: int| 0 <= j < f.len() ==> (#[trigger] f[j]).0@ != key,
    ensures
        field(f, key) is None,
    decreases f.len(),
{
    if f.len() > 0 {
        assert forall|j: int| 0 <= j < f.len() - 1 implies (#[trigger] f.skip(1)[j]).0@ != key by {
            assert(f.skip(1)[j] == f[j + 1]);
        }
        lemma_field_absent(f.skip(1), key);
    }
}

proof fn lemma_text_list(v: Value, items: Seq<Seq<char>>)
    requires
        is_text_list(v, items),
    ensures
        text_list_of(v) == Some(items),
{
    if let Value::Array(a) = v {
        assert forall|i: int| 0 <= i < a@.len() implies #[trigger] text_of(a@[i]) is Some by {
            assert(is_text(a@[i], items[i]));
        }
        assert(Seq::new(a@.len(), |i: int| text_of(a@[i])->0) =~= items);
    }
}

proof fn lemma_text_object(v: Value, pairs: Seq<(Seq<char>, Seq<char>)>)
    requires
        is_text_object(v, pairs),
    ensures
        text_object_of(v) == Some(pairs),
{
    if let Value::Object(f) = v {
        assert forall|i: int| 0 <= i < f@.len() implies #[trigger] text_of(f@[i].1) is Some by {
            assert(is_text(f@[i].1, pairs[i].1));
        }
        assert(Seq::new(f@.len(), |i: int| (f@[i].0@, text_of(f@[i].1)->0)) =~= pairs);
    }
}

proof fn lemma_decode_target(v: Value, t: TargetView)
    requires
        encodes_target(v, t),
    ensures
        decode_target(v) == Some(t),
{
    reveal_strlit("context");
    reveal_strlit("dockerfile");
    reveal_strlit("tags");
    reveal_strlit("depends_on");
    reveal_strlit("contexts");
    if let Value::Object(fv) = v {
        let f = fv@;
        assert("context"@.len() == 7 && "dockerfile"@.len() == 10 && "tags"@.len() == 4);
        assert("depends_on"@.len() == 10 && "contexts"@.len() == 8);
        assert("dockerfile"@[1] == 'o' && "depends_on"@[1] == 'e');
        lemma_field_at(f, "context"@, 0);
        lemma_field_at(f, "dockerfile"@, 1);
        lemma_field_at(f, "tags"@, 2);
        lemma_field_at(f, "depends_on"@, 3);
        lemma_text_list(f[2].1, t.tags);
        lemma_text_list(f[3].1, t.depends_on);
        match t.contexts {
            Some(c) => {
                lemma_field_at(f, "contexts"@, 4);
                lemma_text_object(f[4].1, c);
            },
            None => {
                lemma_field_absent(f, "contexts"@);
            },
        }
    }
}

/// Decoding the structured encoding of a descriptor gives back the same
/// groups and targets, field for field.
pub proof fn lemma_structured_round_trip(v: Value, b: BakeView)
    requires
        encodes_bake(v, b),
    ensures
        decode_bake(v) == Some(b),
{
    reveal_strlit("group");
    reveal_strlit("target");
    reveal_strlit("targets");
    if let Value::Object(fv) = v {
        let f = fv@;
        assert("group"@.len() == 5 && "target"@.len() == 6);
        lemma_field_at(f, "group"@, 0);
        lemma_field_at(f, "target"@, 1);
        if let Value::Object(g) = f[0].1 {
            assert forall|i: int| 0 <= i < g@.len() implies #[trigger] decode_group(g@[i].1) == Some(
                b.groups[i].1,
            ) by {
                if let Value::Object(gf) = g@[i].1 {
                    lemma_field_at(gf@, "targets"@, 0);
                    lemma_text_list(gf@[0].1, b.groups[i].1);
                }
            }
            assert(Seq::new(g@.len(), |i: int| (g@[i].0@, decode_group(g@[i].1)->0)) =~= b.groups);
        }
        if let Value::Object(t) = f[1].1 {
            assert forall|i: int| 0 <= i < t@.len() implies #[trigger] decode_target(t@[i].1) == Some(
                b.targets[i].1,
            ) by {
                lemma_decode_target(t@[i].1, b.targets[i].1);
            }
            assert(Seq::new(t@.len(), |i: int| (t@[i].0@, decode_target(t@[i].1)->0)) =~= b.targets);
        }
    }
}

} // verus!

verus! {

fn field_of<'a>(f: &'a Vec<(String, Value)>, key: &str) -> (r: Option<&'a Value>)
    ensures
        match r {
            Some(x) => field(f@, key@) == Some(*x),
            None => field(f@, key@) is None,
        },
{
    let k = String::from_str(key);
    let mut i: usize = 0;
    assert(f@.skip(0) =~= f@);
    while i < f.len()
        invariant
            i <= f.len(),
            k@ == key@,
            field(f@, key@) == field(f@.skip(i as int), key@),
        decreases f.len() - i,
    {
        assert(f@.skip(i as int)[0] == f@[i as int]);
        if f[i].0 == k {
            return Some(&f[i].1);
        }
        assert(f@.skip(i as int).skip(1) =~= f@.skip(i + 1));
        i += 1;
    }
    None
}

fn read_text(v: &Value) -> (r: Option<String>)
    ensures
        match r {
            Some(s) => text_of(*v) == Some(s@),
            None => text_of(*v) is None,
        },
{
    match v {
        Value::String(s) => Some(s.clone()),
        _ => None,
    }
}

fn read_text_list(v: &Value) -> (r: Option<Vec<String>>)
    ensures
        match r {
            Some(l) => text_list_of(*v) == Some(views(l@)),
            None => text_list_of(*v) is None,
        },
{
    match v {
        Value::Array(a) => {
            let mut out: Vec<String> = Vec::new();
            let mut i: usize = 0;
            while i < a.len()
                invariant
                    *v == Value::Array(*a),
                    i <= a.len(),
                    out@.len() == i,
                    forall|j: int| 0 <= j < i ==> #[trigger] text_of(a@[j]) == Some(out@[j]@),
                decreases a.len() - i,
            {
                match read_text(&a[i]) {
                    Some(s) => out.push(s),
                    None => {
                        assert(!(text_of(a@[i as int]) is Some));
                        return None;
                    },
                }
                i += 1;
            }
            assert(Seq::new(a@.len(), |j: int| text_of(a@[j])->0) =~= views(out@));
            Some(out)
        },
        _ => None,
    }
}

fn read_text_object(v: &Value) -> (r: Option<Vec<(String, String)>>)
    ensures
        match r {
            Some(p) => text_object_of(*v) == Some(pair_views(p@)),
            None => text_object_of(*v) is None,
        },
{
    match v {
        Value::Object(f) => {
            let mut out: Vec<(String, String)> = Vec::new();
            let mut i: usize = 0;
            while i < f.len()
                invariant
                    *v == Value::Object(*f),
                    i <= f.len(),
                    out@.len() == i,
                    forall|j: int|
                        0 <= j < i ==> #[trigger] text_of(f@[j].1) == Some(out@[j].1@) && out@[j].0@
                            == f@[j].0@,
                decreases f.len() - i,
            {
                match read_text(&f[i].1) {
                    Some(s) => out.push((f[i].0.clone(), s)),
                    None => {
                        assert(!(text_of(f@[i as int].1) is Some));
                        return None;
                    },
                }
                i += 1;
            }
            assert(Seq::new(f@.len(), |j: int| (f@[j].0@, text_of(f@[j].1)->0)) =~= pair_views(out@));
            Some(out)
        },
        _ => None,
    }
}

fn read_target(v: &Value) -> (r: Option<Target>)
    ensures
        match r {
            Some(t) => decode_target(*v) == Some(t@),
            None => decode_target(*v) is None,
        },
{
    match v {
        Value::Object(f) => {
            let context = match field_of(f, "context") {
                Some(x) => match read_text(x) {
                    Some(s) => s,
                    None => {
                        return None;
                    },
                },
                None => {
                    return None;
                },
            };
            let dockerfile = match field_of(f, "dockerfile") {
                Some(x) => match read_text(x) {
                    Some(s) => s,
                    None => {
                        return None;
                    },
                },
                None => {
                    return None;
                },
            };
            let tags = match field_of(f, "tags") {
                Some(x) => match read_text_list(x) {
                    Some(l) => l,
                    None => {
                        return None;
                    },
                },
                None => {
                    return None;
                },
            };
            let depends_on = match field_of(f, "depends_on") {
                Some(x) => match read_text_list(x) {
                    Some(l) => l,
                    None => {
                        return None;
                    },
                },
                None => {
                    return None;
                },
            };
            let contexts = match field_of(f, "contexts") {
                Some(x) => match read_text_object(x) {
                    Some(p) => Some(p),
                    None => {
                        return None;
                    },
                },
                None => None,
            };
            let t = Target { context, dockerfile, tags, depends_on, dockerfile_contents: None, contexts };
            assert(contexts_view(t.contexts) == field_contexts(f@)->0);
            Some(t)
        },
        _ => None,
    }
}

impl BakeFile {
    /// Reads a descriptor back from its structured encoding, or `None` where
    /// the value does not have the shape of one.
    pub fn from_value(v: &Value) -> (r: Option<BakeFile>)
        ensures
            match r {
                Some(b) => decode_bake(*v) == Some(b@),
                None => decode_bake(*v) is None,
            },
    {
        let f = match v {
            Value::Object(f) => f,
            _ => {
                return None;
            },
        };
        let g = match field_of(f, "group") {
            Some(Value::Object(g)) => g,
            Some(_) => {
                return None;
            },
            None => {
                return None;
            },
        };
        let t = match field_of(f, "target") {
            Some(Value::Object(t)) => t,
            Some(_) => {
                return None;
            },
            None => {
                return None;
            },
        };
        let mut group: Vec<(String, Group)> = Vec::new();
        let mut i: usize = 0;
        while i < g.len()
            invariant
                *v == Value::Object(*f),
                field(f@, "group"@) == Some(Value::Object(*g)),
                i <= g.len(),
                group@.len() == i,
                forall|j: int|
                    0 <= j < i ==> #[trigger] decode_group(g@[j].1) == Some(group@[j].1@) && group@[j].0@
                        == g@[j].0@,
            decreases g.len() - i,
        {
            let targets = match &g[i].1 {
                Value::Object(gf) => match field_of(gf, "targets") {
                    Some(x) => match read_text_list(x) {
                        Some(l) => l,
                        None => {
                            assert(!(decode_group(g@[i as int].1) is Some));
                            return None;
                        },
                    },
                    None => {
                        assert(!(decode_group(g@[i as int].1) is Some));
                        return None;
                    },
                },
                _ => {
                    assert(!(decode_group(g@[i as int].1) is Some));
                    return None;
                },
            };
            group.push((g[i].0.clone(), Group { targets }));
            i += 1;
        }
        let mut target: Vec<(String, Target)> = Vec::new();
        let mut j: usize = 0;
        while j < t.len()
            invariant
                *v == Value::Object(*f),
                field(f@, "group"@) == Some(Value::Object(*g)),
                field(f@, "target"@) == Some(Value::Object(*t)),
                forall|k: int| 0 <= k < g@.len() ==> #[trigger] decode_group(g@[k].1) == Some(group@[k].1@) && group@[k].0@ == g@[k].0@,
                group@.len() == g@.len(),
                j <= t.len(),
                target@.len() == j,
                forall|k: int|
                    0 <= k < j ==> #[trigger] decode_target(t@[k].1) == Some(target@[k].1@) && target@[k].0@
                        == t@[k].0@,
            decreases t.len() - j,
        {
            match read_target(&t[j].1) {
                Some(x) => target.push((t[j].0.clone(), x)),
                None => {
                    assert(!(decode_target(t@[j as int].1) is Some));
                    return None;
                },
            }
            j += 1;
        }
        let b = BakeFile { group, target };
        assert(Seq::new(g@.len(), |k: int| (g@[k].0@, decode_group(g@[k].1)->0)) =~= b@.groups);
        assert(Seq::new(t@.len(), |k: int| (t@[k].0@, decode_target(t@[k].1)->0)) =~= b@.targets);
        Some(b)
    }
}

} // verus!
