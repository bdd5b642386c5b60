//! The block encoding of a descriptor: one `group` block per group, then one
//! `target` block per target, in table order, with a fixed key order inside
//! each target block.

use vstd::prelude::*;
use vstd::string::StringExecFns;
use crate::bake::{BakeFile, BakeView, Group, Target, TargetView, pair_views};
use crate::text::views;

verus! {

pub open spec fn quoted(s: Seq<char>) -> Seq<char> {
    seq!['"'] + s + seq!['"']
}

/// The items quoted and separated by `, `.
pub open spec fn quoted_list(items: Seq<Seq<char>>) -> Seq<char>
    decreases items.len(),
{
    if items.len() == 0 {
        seq![]
    } else if items.len() == 1 {
        quoted(items[0])
    } else {
        quoted_list(items.drop_last()) + ", "@ + quoted(items.last())
    }
}

pub open spec fn group_block(name: Seq<char>, targets: Seq<Seq<char>>) -> Seq<char> {
    "group \""@ + name + "\" {\n"@ + "  targets = ["@ + quoted_list(targets) + "]\n}\n\n"@
}

/// One `key = "value"` line per named context.
pub open spec fn context_lines(c: Seq<(Seq<char>, Seq<char>)>) -> Seq<char>
    decreases c.len(),
{
    if c.len() == 0 {
        seq![]
    } else {
        context_lines(c.drop_last()) + "    "@ + c.last().0 + " = \""@ + c.last().1 + "\"\n"@
    }
}

/// The `depends_on` line, left out when there is nothing to depend on.
pub open spec fn depends_on_line(deps: Seq<Seq<char>>) -> Seq<char> {
    if deps.len() > 0 {
        "  depends_on = ["@ + quoted_list(deps) + "]\n"@
    } else {
        seq![]
    }
}

/// The `contexts` block, left out when the target has none.
pub open spec fn contexts_block(c: Option<Seq<(Seq<char>, Seq<char>)>>) -> Seq<char> {
    match c {
        Some(c) => "  contexts = {\n"@ + context_lines(c) + "  }\n"@,
        None => seq![],
    }
}

/// The opening of a target block, up to and including its tags.
pub open spec fn target_head(name: Seq<char>, t: TargetView) -> Seq<char> {
    "target \""@ + name + "\" {\n"@ + "  context = \""@ + t.context + "\"\n"@ + "  dockerfile = \""@
        + t.dockerfile + "\"\n"@ + "  tags = ["@ + quoted_list(t.tags) + "]\n"@
}

pub open spec fn target_block(name: Seq<char>, t: TargetView) -> Seq<char> {
    target_head(name, t) + depends_on_line(t.depends_on) + contexts_block(t.contexts) + "}\n\n"@
}

pub open spec fn group_blocks(g: Seq<(Seq<char>, Seq<Seq<char>>)>) -> Seq<char>
    decreases g.len(),
{
    if g.len() == 0 {
        seq![]
    } else {
        group_blocks(g.drop_last()) + group_block(g.last().0, g.last().1)
    }
}

pub open spec fn target_blocks(t: Seq<(Seq<char>, TargetView)>) -> Seq<char>
    decreases t.len(),
{
    if t.len() == 0 {
        seq![]
    } else {
        target_blocks(t.drop_last()) + target_block(t.last().0, t.last().1)
    }
}

/// The block encoding of a descriptor.
pub open spec fn hcl_text(b: BakeView) -> Seq<char> {
    group_blocks(b.groups) + target_blocks(b.targets)
}

fn push_quoted_list(out: &mut String, items: &Vec<String>)
    ensures
        final(out)@ == old(out)@ + quoted_list(views(items@)),
{
    let ghost start = out@;
    let mut i: usize = 0;
    while i < items.len()
        invariant
            i <= items.len(),
            out@ == start + quoted_list(views(items@).take(i as int)),
        decreases items.len() - i,
    {
        let ghost before = views(items@).take(i as int);
        let ghost after = views(items@).take(i + 1);
        assert(after.drop_last() =~= before);
        assert(after.last() == items@[i as int]@);
        if i > 0 {
            out.append(", ");
        }
        out.push('"');
        out.append(items[i].as_str());
        out.push('"');
        proof {
            if i > 0 {
                assert(out@ =~= start + (quoted_list(before) + ", "@ + quoted(after.last())));
            } else {
                assert(before =~= seq![]);
                assert(out@ =~= start + quoted(after[0]));
            }
        }
        i += 1;
    }
    assert(views(items@).take(items.len() as int) =~= views(items@));
}

fn push_group_block(out: &mut String, name: &String, group: &Group)
    ensures
        final(out)@ == old(out)@ + group_block(name@, group@),
{
    let ghost start = out@;
    out.append("group \"");
    out.append(name.as_str());
    out.append("\" {\n");
    out.append("  targets = [");
    push_quoted_list(out, &group.targets);
    out.append("]\n}\n\n");
    assert(out@ =~= start + group_block(name@, group@));
}

fn push_context_lines(out: &mut String, c: &Vec<(String, String)>)
    ensures
        final(out)@ == old(out)@ + context_lines(pair_views(c@)),
{
    let ghost start = out@;
    let mut i: usize = 0;
    while i < c.len()
        invariant
            i <= c.len(),
            out@ == start + context_lines(pair_views(c@).take(i as int)),
        decreases c.len() - i,
    {
        let ghost before = pair_views(c@).take(i as int);
        let ghost after = pair_views(c@).take(i + 1);
        assert(after.drop_last() =~= before);
        assert(after.last() == (c@[i as int].0@, c@[i as int].1@));
        out.append("    ");
        out.append(c[i].0.as_str());
        out.append(" = \"");
        out.append(c[i].1.as_str());
        out.append("\"\n");
        assert(out@ =~= start + context_lines(after));
        i += 1;
    }
    assert(pair_views(c@).take(c.len() as int) =~= pair_views(c@));
}

fn push_target_head(out: &mut String, name: &String, target: &Target)
    ensures
        final(out)@ == old(out)@ + target_head(name@, target@),
{
    let ghost start = out@;
    out.append("target \"");
    out.append(name.as_str());
    out.append("\" {\n");
    out.append("  context = \"");
    out.append(target.context.as_str());
    out.append("\"\n");
    out.append("  dockerfile = \"");
    out.append(target.dockerfile.as_str());
    out.append("\"\n");
    out.append("  tags = [");
    push_quoted_list(out, &target.tags);
    out.append("]\n");
    assert(out@ =~= start + target_head(name@, target@));
}

fn push_target_block(out: &mut String, name: &String, target: &Target)
    ensures
        final(out)@ == old(out)@ + target_block(name@, target@),
{
    let ghost start = out@;
    push_target_head(out, name, target);
    let ghost mid = out@;
    if target.depends_on.len() > 0 {
        out.append("  depends_on = [");
        push_quoted_list(out, &target.depends_on);
        out.append("]\n");
    }
    assert(out@ =~= mid + depends_on_line(target@.depends_on));
    let ghost mid2 = out@;
    match &target.contexts {
        Some(c) => {
            out.append("  contexts = {\n");
            push_context_lines(out, c);
            out.append("  }\n");
        },
        None => {},
    }
    assert(out@ =~= mid2 + contexts_block(target@.contexts));
    out.append("}\n\n");
    assert(out@ =~= start + target_block(name@, target@));
}

impl BakeFile {
    /// The block encoding: every group block, then every target block.
    pub fn to_hcl(&self) -> (r: String)
        ensures
            r@ == hcl_text(self@),
    {
        let mut out = String::new();
        let mut i: usize = 0;
        while i < self.group.len()
            invariant
                i <= self.group.len(),
                out@ == group_blocks(self@.groups.take(i as int)),
            decreases self.group.len() - i,
        {
            assert(self@.groups.take(i + 1).drop_last() =~= self@.groups.take(i as int));
            push_group_block(&mut out, &self.group[i].0, &self.group[i].1);
            i += 1;
        }
        assert(self@.groups.take(self.group.len() as int) =~= self@.groups);
        let ghost groups_text = out@;
        let mut j: usize = 0;
        while j < self.target.len()
            invariant
                j <= self.target.len(),
                groups_text == group_blocks(self@.groups),
                out@ == groups_text + target_blocks(self@.targets.take(j as int)),
            decreases self.target.len() - j,
        {
            assert(self@.targets.take(j + 1).drop_last() =~= self@.targets.take(j as int));
            push_target_block(&mut out, &self.target[j].0, &self.target[j].1);
            assert(out@ =~= groups_text + target_blocks(self@.targets.take(j + 1)));
            j += 1;
        }
        assert(self@.targets.take(self.target.len() as int) =~= self@.targets);
        out
    }
}

} // verus!
