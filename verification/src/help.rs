//! The help text: a listing of all groups and their commands, or the detail
//! of one command or one group.

use crate::registry::{
    group_position, has_group, is_place, lemma_lookup_finds, lookup_spec, name_at,
    names_distinct, registered, Command, CommandView, GroupView, Registry,
};
use vstd::prelude::*;
use vstd::string::*;

verus! {

/// The line of one command in a listing: indented, its name, a colon, its
/// description.
pub open spec fn command_line<H>(command: CommandView<H>) -> Seq<char> {
    "  "@ + command.name + ": "@ + command.description + "\n"@
}

/// The lines of `commands`, in their order.
pub open spec fn command_lines<H>(commands: Seq<CommandView<H>>) -> Seq<char>
    decreases commands.len(),
{
    if commands.len() == 0 {
        Seq::empty()
    } else {
        command_lines(commands.drop_last()) + command_line(commands.last())
    }
}

/// The heading of a group: its name, a colon, and what is said about it.
pub open spec fn heading(name: Seq<char>, about: Seq<char>) -> Seq<char> {
    name + ": "@ + about + "\n"@
}

/// A group's heading, with its summary, and the lines of its commands.
pub open spec fn group_block<H>(group: GroupView<H>) -> Seq<char> {
    heading(group.name, group.summary) + command_lines(group.commands)
}

/// The listing of `groups`: the block of each, in their order.
pub open spec fn listing<H>(groups: Seq<GroupView<H>>) -> Seq<char>
    decreases groups.len(),
{
    if groups.len() == 0 {
        Seq::empty()
    } else {
        listing(groups.drop_last()) + group_block(groups.last())
    }
}

/// The detail of a group: its heading, with its description, and the lines
/// of its commands.
pub open spec fn group_detail<H>(group: GroupView<H>) -> Seq<char> {
    heading(group.name, group.description) + command_lines(group.commands)
}

/// What is answered where the target names neither a command nor a group.
pub open spec fn not_found(target: Seq<char>) -> Seq<char> {
    "not found: "@ + target
}

/// The help text. Without a target it is the listing. With a target that is
/// the name or an alias of a command it is that command's description; with
/// one that is the name of a group and of no command, the group's detail;
/// with any other, the answer that nothing was found.
pub open spec fn render_spec<H>(groups: Seq<GroupView<H>>, target: Option<Seq<char>>) -> Seq<char> {
    match target {
        None => listing(groups),
        Some(name) => if registered(groups, name) {
            lookup_spec(groups, name)->0.description
        } else if has_group(groups, name) {
            group_detail(groups[group_position(groups, name)])
        } else {
            not_found(name)
        },
    }
}

/// The view of an optional target.
pub open spec fn target_view(target: Option<&str>) -> Option<Seq<char>> {
    match target {
        Some(name) => Some(name@),
        None => None,
    }
}

/// Appends the line of each of `commands` to `out`.
fn append_command_lines<H>(out: &mut String, commands: &Vec<Command<H>>)
    ensures
        final(out)@ == old(out)@ + command_lines(commands.deep_view()),
{
    let ghost all = commands.deep_view();
    let mut i: usize = 0;
    assert(all.take(0) =~= Seq::empty());
    while i < commands.len()
        invariant
            i <= commands.len(),
            all == commands.deep_view(),
            out@ == old(out)@ + command_lines(all.take(i as int)),
        decreases commands.len() - i,
    {
        let command = &commands[i];
        assert(all.take(i + 1).drop_last() =~= all.take(i as int));
        assert(all.take(i + 1).last() == command@);
        out.append("  ");
        out.append(command.name.as_str());
        out.append(": ");
        out.append(command.description.as_str());
        out.append("\n");
        i += 1;
    }
    assert(all.take(commands.len() as int) =~= all);
}

/// Appends a heading to `out`.
fn append_heading(out: &mut String, name: &str, about: &str)
    ensures
        final(out)@ == old(out)@ + heading(name@, about@),
{
    out.append(name);
    out.append(": ");
    out.append(about);
    out.append("\n");
}

/// Renders the help text for `target`. The registry is read, never changed.
pub fn render<H>(registry: &Registry<H>, target: Option<&str>) -> (text: String)
    requires
        registry.wf(),
    ensures
        text@ == render_spec(registry@, target_view(target)),
{
    match target {
        None => {
            let groups = registry.groups();
            let ghost all = groups.deep_view();
            let mut out = String::new();
            let mut i: usize = 0;
            assert(all.take(0) =~= Seq::empty());
            while i < groups.len()
                invariant
                    i <= groups.len(),
                    all == groups.deep_view(),
                    out@ == listing(all.take(i as int)),
                decreases groups.len() - i,
            {
                let group = &groups[i];
                assert(all.take(i + 1).drop_last() =~= all.take(i as int));
                assert(all.take(i + 1).last() == group@);
                append_heading(&mut out, group.name.as_str(), group.summary.as_str());
                append_command_lines(&mut out, &group.commands);
                i += 1;
            }
            assert(all.take(groups.len() as int) =~= all);
            out
        },
        Some(name) => {
            match registry.lookup(name) {
                Some(command) => command.description.clone(),
                None => match registry.group(name) {
                    Some(group) => {
                        let mut out = String::new();
                        append_heading(&mut out, group.name.as_str(), group.description.as_str());
                        append_command_lines(&mut out, &group.commands);
                        out
                    },
                    None => {
                        let mut out = String::from_str("not found: ");
                        out.append(name);
                        out
                    },
                },
            }
        },
    }
}

/// Asked about a name or an alias of a command, the help text is that
/// command's description and nothing else.
pub proof fn lemma_help_for_command<H>(groups: Seq<GroupView<H>>, g: int, c: int, k: int)
    requires
        names_distinct(groups),
        is_place(groups, g, c, k),
    ensures
        render_spec(groups, Some(name_at(groups, g, c, k))) == groups[g].commands[c].description,
{
    lemma_lookup_finds(groups, g, c, k);
}

/// Whether `part` stands in `text` at the position `at`.
pub open spec fn holds_at(text: Seq<char>, at: int, part: Seq<char>) -> bool {
    0 <= at && at + part.len() <= text.len() && text.subrange(at, at + part.len()) == part
}

/// Where the block of the `g`-th group begins in the listing.
pub open spec fn block_offset<H>(groups: Seq<GroupView<H>>, g: int) -> int {
    listing(groups.take(g)).len() as int
}

/// Where the line of the `c`-th command of the `g`-th group begins in the
/// listing.
pub open spec fn line_offset<H>(groups: Seq<GroupView<H>>, g: int, c: int) -> int {
    block_offset(groups, g) + heading(groups[g].name, groups[g].summary).len() + command_lines(
        groups[g].commands.take(c),
    ).len()
}

/// The lines of the first `c + 1` commands are those of the first `c` and
/// the line of the next.
proof fn lemma_command_lines_step<H>(commands: Seq<CommandView<H>>, c: int)
    requires
        0 <= c < commands.len(),
    ensures
        command_lines(commands.take(c + 1)) == command_lines(commands.take(c)) + command_line(
            commands[c],
        ),
{
    assert(commands.take(c + 1).drop_last() =~= commands.take(c));
    assert(commands.take(c + 1).last() == commands[c]);
}

/// The lines of the first `c` commands open the lines of all.
proof fn lemma_command_lines_prefix<H>(commands: Seq<CommandView<H>>, c: int)
    requires
        0 <= c <= commands.len(),
    ensures
        command_lines(commands.take(c)).is_prefix_of(command_lines(commands)),
    decreases commands.len() - c,
{
    if c == commands.len() {
        assert(commands.take(c) =~= commands);
    } else {
        lemma_command_lines_step(commands, c);
        lemma_command_lines_prefix(commands, c + 1);
        let shorter = command_lines(commands.take(c));
        let longer = command_lines(commands.take(c + 1));
        let all = command_lines(commands);
        assert(shorter =~= all.subrange(0, shorter.len() as int)) by {
            assert(longer =~= all.subrange(0, longer.len() as int));
            assert forall|i: int| 0 <= i < shorter.len() implies shorter[i] == all[i] by {
                assert(shorter[i] == longer[i]);
                assert(longer[i] == all.subrange(0, longer.len() as int)[i]);
            }
        }
    }
}

/// The listing of the first `g + 1` groups is that of the first `g` and the
/// block of the next.
proof fn lemma_listing_step<H>(groups: Seq<GroupView<H>>, g: int)
    requires
        0 <= g < groups.len(),
    ensures
        listing(groups.take(g + 1)) == listing(groups.take(g)) + group_block(groups[g]),
{
    assert(groups.take(g + 1).drop_last() =~= groups.take(g));
    assert(groups.take(g + 1).last() == groups[g]);
}

/// The listing of the first `g` groups opens the listing of all.
proof fn lemma_listing_prefix<H>(groups: Seq<GroupView<H>>, g: int)
    requires
        0 <= g <= groups.len(),
    ensures
        listing(groups.take(g)).is_prefix_of(listing(groups)),
    decreases groups.len() - g,
{
    if g == groups.len() {
        assert(groups.take(g) =~= groups);
    } else {
        lemma_listing_step(groups, g);
        lemma_listing_prefix(groups, g + 1);
        let shorter = listing(groups.take(g));
        let longer = listing(groups.take(g + 1));
        let all = listing(groups);
        assert(shorter =~= all.subrange(0, shorter.len() as int)) by {
            assert(longer =~= all.subrange(0, longer.len() as int));
            assert forall|i: int| 0 <= i < shorter.len() implies shorter[i] == all[i] by {
                assert(shorter[i] == longer[i]);
                assert(longer[i] == all.subrange(0, longer.len() as int)[i]);
            }
        }
    }
}

/// The blocks begin one behind the other.
proof fn lemma_block_offsets_grow<H>(groups: Seq<GroupView<H>>, g1: int, g2: int)
    requires
        0 <= g1 < g2 <= groups.len(),
    ensures
        block_offset(groups, g1) + group_block(groups[g1]).len() <= block_offset(groups, g2),
    decreases g2 - g1,
{
    lemma_listing_step(groups, g1);
    if g1 + 1 < g2 {
        lemma_block_offsets_grow(groups, g1 + 1, g2);
    }
}

/// The lines of a group begin one behind the other.
proof fn lemma_line_offsets_grow<H>(commands: Seq<CommandView<H>>, c1: int, c2: int)
    requires
        0 <= c1 < c2 <= commands.len(),
    ensures
        command_lines(commands.take(c1)).len() + command_line(commands[c1]).len() <= command_lines(
            commands.take(c2),
        ).len(),
    decreases c2 - c1,
{
    lemma_command_lines_step(commands, c1);
    if c1 + 1 < c2 {
        lemma_command_lines_step(commands, c1 + 1);
        lemma_line_offsets_grow(commands, c1 + 1, c2);
    }
}

/// The listing holds the block of every group, with its heading first.
pub proof fn lemma_listing_holds_group<H>(groups: Seq<GroupView<H>>, g: int)
    requires
        0 <= g < groups.len(),
    ensures
        holds_at(listing(groups), block_offset(groups, g), group_block(groups[g])),
        holds_at(
            listing(groups),
            block_offset(groups, g),
            heading(groups[g].name, groups[g].summary),
        ),
{
    lemma_listing_step(groups, g);
    lemma_listing_prefix(groups, g + 1);
    let at = block_offset(groups, g);
    let block = group_block(groups[g]);
    let head = heading(groups[g].name, groups[g].summary);
    let upto = listing(groups.take(g + 1));
    let all = listing(groups);
    assert(upto =~= all.subrange(0, upto.len() as int));
    assert(all.subrange(at, at + block.len()) =~= block) by {
        assert forall|i: int| 0 <= i < block.len() implies all[at + i] == block[i] by {
            assert(upto[at + i] == block[i]);
            assert(upto[at + i] == all.subrange(0, upto.len() as int)[at + i]);
        }
    }
    assert(all.subrange(at, at + head.len()) =~= head) by {
        assert forall|i: int| 0 <= i < head.len() implies all[at + i] == head[i] by {
            assert(all.subrange(at, at + block.len())[i] == block[i]);
        }
    }
}

/// The listing holds the line of every command, name and description,
/// within the block of its group and behind the group's heading.
pub proof fn lemma_listing_holds_command<H>(groups: Seq<GroupView<H>>, g: int, c: int)
    requires
        0 <= g < groups.len(),
        0 <= c < groups[g].commands.len(),
    ensures
        holds_at(listing(groups), line_offset(groups, g, c), command_line(groups[g].commands[c])),
        block_offset(groups, g) + heading(groups[g].name, groups[g].summary).len() <= line_offset(
            groups,
            g,
            c,
        ),
        line_offset(groups, g, c) + command_line(groups[g].commands[c]).len() <= block_offset(
            groups,
            g,
        ) + group_block(groups[g]).len(),
{
    lemma_listing_holds_group(groups, g);
    let commands = groups[g].commands;
    lemma_command_lines_step(commands, c);
    lemma_command_lines_prefix(commands, c + 1);
    let all = listing(groups);
    let block = group_block(groups[g]);
    let head = heading(groups[g].name, groups[g].summary);
    let lines = command_lines(commands);
    let before = command_lines(commands.take(c));
    let upto = command_lines(commands.take(c + 1));
    let line = command_line(commands[c]);
    let at = line_offset(groups, g, c);
    let start = block_offset(groups, g);
    assert(upto =~= lines.subrange(0, upto.len() as int));
    assert(all.subrange(at, at + line.len()) =~= line) by {
        assert forall|i: int| 0 <= i < line.len() implies all[at + i] == line[i] by {
            let j = before.len() + i;
            assert(upto[j] == line[i]);
            assert(upto[j] == lines.subrange(0, upto.len() as int)[j]);
            assert(block[head.len() + j] == lines[j]);
            assert(all.subrange(start, start + block.len())[head.len() + j] == block[head.len()
                + j]);
        }
    }
}

/// The listing keeps the order of registration: the block of a group ends
/// before that of a later group begins, and within a group the line of a
/// command ends before that of a later command begins.
pub proof fn lemma_listing_in_order<H>(
    groups: Seq<GroupView<H>>,
    g1: int,
    g2: int,
    c1: int,
    c2: int,
)
    requires
        0 <= g1 <= g2 < groups.len(),
        0 <= c1 < groups[g1].commands.len(),
        0 <= c2 < groups[g2].commands.len(),
        g1 < g2 || c1 < c2,
    ensures
        g1 < g2 ==> block_offset(groups, g1) + group_block(groups[g1]).len() <= block_offset(
            groups,
            g2,
        ),
        line_offset(groups, g1, c1) + command_line(groups[g1].commands[c1]).len() <= line_offset(
            groups,
            g2,
            c2,
        ),
{
    lemma_listing_holds_command(groups, g1, c1);
    lemma_listing_holds_command(groups, g2, c2);
    if g1 < g2 {
        lemma_block_offsets_grow(groups, g1, g2);
    } else {
        lemma_line_offsets_grow(groups[g1].commands, c1, c2);
    }
}

} // verus!
