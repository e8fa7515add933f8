//! The table of commands: groups in the order in which they were added, the
//! commands of each group in the order in which they were registered, and an
//! index from every name and alias to the command that bears it.

use vstd::hash_map::StringHashMap;
use vstd::prelude::*;
use vstd::string::*;

verus! {

/// A named, invokable unit of behaviour. What it does when it is invoked is
/// up to its handler, of which the registry asks nothing.
#[derive(Debug, Clone, PartialEq, Eq)]
pub struct Command<H> {
    pub name: String,
    pub aliases: Vec<String>,
    pub description: String,
    pub handler: H,
}

/// The mathematical value of a `Command`.
pub struct CommandView<H> {
    pub name: Seq<char>,
    pub aliases: Seq<Seq<char>>,
    pub description: Seq<char>,
    pub handler: H,
}

impl<H> CommandView<H> {
    /// Every text by which the command can be invoked: its name, then its
    /// aliases.
    pub open spec fn names(self) -> Seq<Seq<char>> {
        seq![self.name] + self.aliases
    }
}

impl<H> DeepView for Command<H> {
    type V = CommandView<H>;

    open spec fn deep_view(&self) -> CommandView<H> {
        CommandView {
            name: self.name@,
            aliases: self.aliases.deep_view(),
            description: self.description@,
            handler: self.handler,
        }
    }
}

impl<H> View for Command<H> {
    type V = CommandView<H>;

    open spec fn view(&self) -> CommandView<H> {
        self.deep_view()
    }
}

/// A named collection of commands, shown together by the help command.
#[derive(Debug, Clone, PartialEq, Eq)]
pub struct Group<H> {
    pub name: String,
    pub summary: String,
    pub description: String,
    pub commands: Vec<Command<H>>,
}

/// The mathematical value of a `Group`.
pub struct GroupView<H> {
    pub name: Seq<char>,
    pub summary: Seq<char>,
    pub description: Seq<char>,
    pub commands: Seq<CommandView<H>>,
}

impl<H> DeepView for Group<H> {
    type V = GroupView<H>;

    open spec fn deep_view(&self) -> GroupView<H> {
        GroupView {
            name: self.name@,
            summary: self.summary@,
            description: self.description@,
            commands: self.commands.deep_view(),
        }
    }
}

impl<H> View for Group<H> {
    type V = GroupView<H>;

    open spec fn view(&self) -> GroupView<H> {
        self.deep_view()
    }
}

/// Why a registration was refused.
#[derive(Debug, Clone, Copy, PartialEq, Eq)]
pub enum RegistrationError {
    /// A group of that name exists already.
    DuplicateGroup,
    /// No group of that name exists.
    UnknownGroup,
    /// The command's name or one of its aliases is empty.
    EmptyName,
    /// The command's name or one of its aliases is taken, by another command
    /// or by the command itself.
    DuplicateName,
}

/// Whether `(g, c, k)` is the place of a name: of the `k`-th name of the
/// `c`-th command of the `g`-th group.
pub open spec fn is_place<H>(groups: Seq<GroupView<H>>, g: int, c: int, k: int) -> bool {
    &&& 0 <= g < groups.len()
    &&& 0 <= c < groups[g].commands.len()
    &&& 0 <= k < groups[g].commands[c].names().len()
}

/// The name at a place.
pub open spec fn name_at<H>(groups: Seq<GroupView<H>>, g: int, c: int, k: int) -> Seq<char> {
    groups[g].commands[c].names()[k]
}

/// Whether some command of `groups` has `name` as its name or as an alias.
pub open spec fn registered<H>(groups: Seq<GroupView<H>>, name: Seq<char>) -> bool {
    exists|g: int, c: int, k: int|
        is_place(groups, g, c, k) && #[trigger] name_at(groups, g, c, k) == name
}

/// Whether every name and alias occurs once only in the whole of `groups`.
pub open spec fn names_distinct<H>(groups: Seq<GroupView<H>>) -> bool {
    forall|g1: int, c1: int, k1: int, g2: int, c2: int, k2: int|
        is_place(groups, g1, c1, k1) && is_place(groups, g2, c2, k2) && #[trigger] name_at(
            groups,
            g1,
            c1,
            k1,
        ) == #[trigger] name_at(groups, g2, c2, k2) ==> g1 == g2 && c1 == c2 && k1 == k2
}

/// Whether some group of `groups` is called `name`.
pub open spec fn has_group<H>(groups: Seq<GroupView<H>>, name: Seq<char>) -> bool {
    exists|g: int| 0 <= g < groups.len() && #[trigger] groups[g].name == name
}

/// The position of the group called `name`.
pub open spec fn group_position<H>(groups: Seq<GroupView<H>>, name: Seq<char>) -> int {
    choose|g: int| 0 <= g < groups.len() && #[trigger] groups[g].name == name
}

/// Whether the command's name or one of its aliases is empty.
pub open spec fn has_empty_name<H>(command: CommandView<H>) -> bool {
    exists|k: int| 0 <= k < command.names().len() && #[trigger] command.names()[k].len() == 0
}

/// Whether one of the command's names is registered in `groups`.
pub open spec fn is_taken<H>(groups: Seq<GroupView<H>>, command: CommandView<H>) -> bool {
    exists|k: int|
        0 <= k < command.names().len() && registered(groups, #[trigger] command.names()[k])
}

/// A place at which `name` stands.
pub open spec fn place_of<H>(groups: Seq<GroupView<H>>, name: Seq<char>) -> (int, int, int) {
    choose|p: (int, int, int)|
        is_place(groups, p.0, p.1, p.2) && #[trigger] name_at(groups, p.0, p.1, p.2) == name
}

/// The command that bears `name`, if any.
pub open spec fn lookup_spec<H>(groups: Seq<GroupView<H>>, name: Seq<char>) -> Option<
    CommandView<H>,
> {
    if registered(groups, name) {
        let place = place_of(groups, name);
        Some(groups[place.0].commands[place.1])
    } else {
        None
    }
}

/// What holds of the groups of every registry: a name or alias stands at one
/// place only, none is empty, and no two groups are called the same.
pub open spec fn well_formed<H>(groups: Seq<GroupView<H>>) -> bool {
    &&& names_distinct(groups)
    &&& forall|g: int, c: int, k: int|
        is_place(groups, g, c, k) ==> (#[trigger] name_at(groups, g, c, k)).len() > 0
    &&& forall|g1: int, g2: int|
        0 <= g1 < groups.len() && 0 <= g2 < groups.len() && (#[trigger] groups[g1]).name == (
        #[trigger] groups[g2]).name ==> g1 == g2
}

/// `groups` with `command` behind the commands of the `g`-th group.
pub open spec fn with_command<H>(
    groups: Seq<GroupView<H>>,
    g: int,
    command: CommandView<H>,
) -> Seq<GroupView<H>> {
    groups.update(
        g,
        GroupView {
            name: groups[g].name,
            summary: groups[g].summary,
            description: groups[g].description,
            commands: groups[g].commands.push(command),
        },
    )
}

/// What registering `command` in the group called `group` comes to: the
/// groups afterwards, or why it is refused. A name that is taken is reported
/// before anything else.
pub open spec fn register_spec<H>(
    groups: Seq<GroupView<H>>,
    group: Seq<char>,
    command: CommandView<H>,
) -> Result<Seq<GroupView<H>>, RegistrationError> {
    if is_taken(groups, command) || !command.names().no_duplicates() {
        Err(RegistrationError::DuplicateName)
    } else if !has_group(groups, group) {
        Err(RegistrationError::UnknownGroup)
    } else if has_empty_name(command) {
        Err(RegistrationError::EmptyName)
    } else {
        Ok(with_command(groups, group_position(groups, group), command))
    }
}

/// The commands of a chat bot, by group.
pub struct Registry<H> {
    groups: Vec<Group<H>>,
    /// From each name and alias to the group and the command that bear it.
    index: StringHashMap<(usize, usize)>,
    /// From each group's name to its position.
    group_index: StringHashMap<usize>,
}

impl<H> View for Registry<H> {
    type V = Seq<GroupView<H>>;

    closed spec fn view(&self) -> Seq<GroupView<H>> {
        self.groups.deep_view()
    }
}

impl<H> Registry<H> {
    /// The invariant of the registry: the two indexes hold exactly the names
    /// that the groups hold, each name occurs once, and none is empty.
    pub closed spec fn wf(&self) -> bool {
        let groups = self@;
        &&& forall|g: int, c: int, k: int|
            is_place(groups, g, c, k) ==> {
                let name = #[trigger] name_at(groups, g, c, k);
                &&& name.len() > 0
                &&& self.index@.contains_key(name)
                &&& self.index@[name].0 == g
                &&& self.index@[name].1 == c
            }
        &&& forall|name: Seq<char>| #[trigger]
            self.index@.contains_key(name) ==> registered(groups, name)
        &&& forall|g: int, c: int, k1: int, k2: int|
            is_place(groups, g, c, k1) && is_place(groups, g, c, k2) && #[trigger] name_at(
                groups,
                g,
                c,
                k1,
            ) == #[trigger] name_at(groups, g, c, k2) ==> k1 == k2
        &&& forall|g: int|
            0 <= g < groups.len() ==> {
                let name = #[trigger] groups[g].name;
                self.group_index@.contains_key(name) && self.group_index@[name] == g
            }
        &&& forall|name: Seq<char>| #[trigger]
            self.group_index@.contains_key(name) ==> has_group(groups, name)
    }

    /// A registry without groups.
    pub fn new() -> (r: Registry<H>)
        ensures
            r.wf(),
            r@ == Seq::<GroupView<H>>::empty(),
    {
        let r = Registry {
            groups: Vec::new(),
            index: StringHashMap::new(),
            group_index: StringHashMap::new(),
        };
        assert(r@ == Seq::<GroupView<H>>::empty());
        r
    }

    /// Adds an empty group behind the groups that exist.
    pub fn add_group(&mut self, name: &str, summary: &str, description: &str) -> (r: Result<
        (),
        RegistrationError,
    >)
        requires
            old(self).wf(),
        ensures
            final(self).wf(),
            has_group(old(self)@, name@) ==> r == Err::<(), _>(RegistrationError::DuplicateGroup)
                && *final(self) == *old(self),
            !has_group(old(self)@, name@) ==> r is Ok && final(self)@ == old(self)@.push(
                GroupView {
                    name: name@,
                    summary: summary@,
                    description: description@,
                    commands: Seq::empty(),
                },
            ),
    {
        if self.group_index.contains_key(name) {
            return Err(RegistrationError::DuplicateGroup);
        }
        assert(!has_group(self@, name@));
        let position = self.groups.len();
        let group = Group {
            name: String::from_str(name),
            summary: String::from_str(summary),
            description: String::from_str(description),
            commands: Vec::new(),
        };
        let ghost added = group@;
        assert(added.commands =~= Seq::empty());
        self.group_index.insert(String::from_str(name), position);
        self.groups.push(group);
        proof {
            let before = old(self)@;
            let after = self@;
            assert(after =~= before.push(added));
            lemma_push_group(before, added);
            assert forall|n: Seq<char>| #[trigger]
                self.group_index@.contains_key(n) implies has_group(after, n) by {
                if n == name@ {
                    assert(after[position as int].name == n);
                } else {
                    let g = choose|g: int| 0 <= g < before.len() && #[trigger] before[g].name == n;
                    assert(after[g].name == n);
                }
            }
        }
        Ok(())
    }

    /// Tells whether one of the command's names is registered already.
    pub fn is_taken(&self, command: &Command<H>) -> (b: bool)
        requires
            self.wf(),
        ensures
            b == is_taken(self@, command@),
    {
        if self.index.contains_key(command.name.as_str()) {
            assert(registered(self@, command@.names()[0]));
            return true;
        }
        let mut i: usize = 0;
        while i < command.aliases.len()
            invariant
                self.wf(),
                i <= command.aliases.len(),
                !registered(self@, command@.name),
                forall|j: int| 0 <= j < i ==> !registered(self@, #[trigger] command@.aliases[j]),
            decreases command.aliases.len() - i,
        {
            if self.index.contains_key(command.aliases[i].as_str()) {
                assert(registered(self@, command@.names()[i + 1]));
                return true;
            }
            i += 1;
        }
        assert forall|k: int| 0 <= k < command@.names().len() implies !registered(
            self@,
            #[trigger] command@.names()[k],
        ) by {
            if k > 0 {
                assert(command@.names()[k] == command@.aliases[k - 1]);
            }
        }
        false
    }

    /// Registers `command` as the last command of the group called `group`.
    /// Refused, with the registry left as it was, where one of the command's
    /// names is taken already or occurs twice in the command itself, where
    /// no such group exists, and where one of the names is empty.
    pub fn register(&mut self, group: &str, command: Command<H>) -> (r: Result<
        (),
        RegistrationError,
    >)
        requires
            old(self).wf(),
        ensures
            final(self).wf(),
            match register_spec(old(self)@, group@, command@) {
                Ok(groups) => r is Ok && final(self)@ == groups,
                Err(e) => r == Err::<(), _>(e) && *final(self) == *old(self),
            },
    {
        if self.is_taken(&command) || command.has_repeated_name() {
            return Err(RegistrationError::DuplicateName);
        }
        let g = match self.group_index.get(group) {
            Some(g) => *g,
            None => {
                return Err(RegistrationError::UnknownGroup);
            },
        };
        assert(has_group(self@, group@));
        assert(g == group_position(self@, group@));
        if command.has_empty_name() {
            return Err(RegistrationError::EmptyName);
        }
        let c = self.groups[g].commands.len();
        let ghost before = self@;
        let ghost added = command@;
        let ghost names = command@.names();
        let ghost index_before = self.index@;
        assert forall|k: int| 0 <= k < names.len() implies !index_before.contains_key(
            #[trigger] names[k],
        ) by {
            assert(!registered(before, names[k]));
        }
        assert(names[0] == command@.name);
        self.index.insert(command.name.clone(), (g, c));
        let mut i: usize = 0;
        while i < command.aliases.len()
            invariant
                i <= command.aliases.len(),
                names == command@.names(),
                self.groups == old(self).groups,
                self.group_index == old(self).group_index,
                forall|k: int|
                    0 <= k < names.len() ==> !index_before.contains_key(#[trigger] names[k]),
                forall|name: Seq<char>|
                    self.index@.contains_key(name) <==> index_before.contains_key(name) || exists|
                        k: int,
                    |
                        0 <= k <= i && #[trigger] names[k] == name,
                forall|name: Seq<char>|
                    index_before.contains_key(name) ==> #[trigger] self.index@[name]
                        == index_before[name],
                forall|k: int| 0 <= k <= i ==> self.index@[#[trigger] names[k]] == (g, c),
            decreases command.aliases.len() - i,
        {
            assert(names[i + 1] == command@.aliases[i as int]);
            self.index.insert(command.aliases[i].clone(), (g, c));
            i += 1;
        }
        let ghost groups_before = self.groups@;
        self.groups[g].commands.push(command);
        proof {
            let after = self@;
            assert(self.groups@.len() == groups_before.len());
            let commands_before = groups_before[g as int].commands.deep_view();
            assert(self.groups@[g as int].commands.deep_view() =~= commands_before.push(added));
            assert(after =~= with_command(before, g as int, added));
            lemma_with_command(before, g as int, added);
            assert forall|g1: int, c1: int, k1: int| is_place(after, g1, c1, k1) implies {
                let name = #[trigger] name_at(after, g1, c1, k1);
                &&& name.len() > 0
                &&& self.index@.contains_key(name)
                &&& self.index@[name].0 == g1
                &&& self.index@[name].1 == c1
            } by {
                if is_place(before, g1, c1, k1) {
                    assert(name_at(after, g1, c1, k1) == name_at(before, g1, c1, k1));
                } else {
                    assert(name_at(after, g1, c1, k1) == names[k1]);
                }
            }
            assert forall|name: Seq<char>| #[trigger]
                self.index@.contains_key(name) implies registered(after, name) by {
                if !index_before.contains_key(name) {
                    let k = choose|k: int| 0 <= k <= i && #[trigger] names[k] == name;
                    assert(names.contains(name));
                }
            }
            assert forall|g1: int, c1: int, k1: int, k2: int|
                is_place(after, g1, c1, k1) && is_place(after, g1, c1, k2) && #[trigger] name_at(
                    after,
                    g1,
                    c1,
                    k1,
                ) == #[trigger] name_at(after, g1, c1, k2) implies k1 == k2 by {
                if is_place(before, g1, c1, k1) {
                    assert(name_at(after, g1, c1, k1) == name_at(before, g1, c1, k1));
                    assert(name_at(after, g1, c1, k2) == name_at(before, g1, c1, k2));
                } else {
                    assert(name_at(after, g1, c1, k1) == names[k1]);
                    assert(name_at(after, g1, c1, k2) == names[k2]);
                }
            }
        }
        Ok(())
    }

    /// The command that bears `name` as its name or as an alias, if any. The
    /// match is exact and case-sensitive.
    pub fn lookup(&self, name: &str) -> (r: Option<&Command<H>>)
        requires
            self.wf(),
        ensures
            match r {
                Some(command) => lookup_spec(self@, name@) == Some(command@),
                None => lookup_spec(self@, name@) is None,
            },
    {
        match self.index.get(name) {
            Some(place) => {
                let g = place.0;
                let c = place.1;
                proof {
                    let found = place_of(self@, name@);
                    lemma_place_of(self@, name@);
                    assert(found.0 == g && found.1 == c);
                }
                Some(&self.groups[g].commands[c])
            },
            None => {
                assert(!registered(self@, name@)) by {
                    if registered(self@, name@) {
                        lemma_place_of(self@, name@);
                    }
                }
                None
            },
        }
    }

    /// The group called `name`, if any.
    pub fn group(&self, name: &str) -> (r: Option<&Group<H>>)
        requires
            self.wf(),
        ensures
            match r {
                Some(group) => has_group(self@, name@) && group@ == self@[group_position(
                    self@,
                    name@,
                )],
                None => !has_group(self@, name@),
            },
    {
        match self.group_index.get(name) {
            Some(g) => {
                assert(has_group(self@, name@));
                assert(*g == group_position(self@, name@));
                Some(&self.groups[*g])
            },
            None => None,
        }
    }

    /// The groups in the order in which they were added, each with its
    /// commands in the order in which they were registered.
    pub fn groups(&self) -> (r: &Vec<Group<H>>)
        ensures
            r.deep_view() == self@,
    {
        &self.groups
    }
}

impl<H> Command<H> {
    /// A command without aliases.
    pub fn new(name: &str, description: &str, handler: H) -> (c: Command<H>)
        ensures
            c@ == (CommandView {
                name: name@,
                aliases: Seq::empty(),
                description: description@,
                handler,
            }),
    {
        let c = Command {
            name: String::from_str(name),
            aliases: Vec::new(),
            description: String::from_str(description),
            handler,
        };
        assert(c.aliases.deep_view() =~= Seq::empty());
        c
    }

    /// The command with one more alias, behind those it has.
    pub fn with_alias(self, alias: &str) -> (c: Command<H>)
        ensures
            c@ == (CommandView {
                name: self@.name,
                aliases: self@.aliases.push(alias@),
                description: self@.description,
                handler: self@.handler,
            }),
    {
        let mut c = self;
        c.aliases.push(String::from_str(alias));
        assert(c.aliases.deep_view() =~= self.aliases.deep_view().push(alias@));
        c
    }

    /// Tells whether the name or an alias is empty.
    pub fn has_empty_name(&self) -> (b: bool)
        ensures
            b == has_empty_name(self@),
    {
        if self.name.as_str().is_empty() {
            assert(self@.names()[0].len() == 0);
            return true;
        }
        let mut i: usize = 0;
        while i < self.aliases.len()
            invariant
                i <= self.aliases.len(),
                self@.name.len() > 0,
                forall|j: int| 0 <= j < i ==> (#[trigger] self@.aliases[j]).len() > 0,
            decreases self.aliases.len() - i,
        {
            if self.aliases[i].as_str().is_empty() {
                assert(self@.names()[i + 1] == self@.aliases[i as int]);
                return true;
            }
            i += 1;
        }
        let ghost names = self@.names();
        assert forall|k: int| 0 <= k < names.len() implies (#[trigger] names[k]).len() > 0 by {
            if k > 0 {
                assert(self@.names()[k] == self@.aliases[k - 1]);
            }
        }
        false
    }

    /// Tells whether the name and the aliases hold some text twice.
    pub fn has_repeated_name(&self) -> (b: bool)
        ensures
            b == !self@.names().no_duplicates(),
    {
        let mut i: usize = 0;
        while i < self.aliases.len()
            invariant
                i <= self.aliases.len(),
                forall|j: int| 0 <= j < i ==> #[trigger] self@.aliases[j] != self@.name,
                forall|j1: int, j2: int|
                    0 <= j1 < j2 < i ==> #[trigger] self@.aliases[j1]
                        != #[trigger] self@.aliases[j2],
            decreases self.aliases.len() - i,
        {
            if self.aliases[i] == self.name {
                assert(self@.names()[0] == self@.names()[i + 1]);
                return true;
            }
            let mut j: usize = 0;
            while j < i
                invariant
                    j <= i < self.aliases.len(),
                    forall|j1: int|
                        0 <= j1 < j ==> #[trigger] self@.aliases[j1] != self@.aliases[i as int],
                decreases i - j,
            {
                if self.aliases[j] == self.aliases[i] {
                    assert(self@.names()[j + 1] == self@.names()[i + 1]);
                    return true;
                }
                j += 1;
            }
            i += 1;
        }
        let ghost names = self@.names();
        assert forall|k1: int, k2: int|
            0 <= k1 < names.len() && 0 <= k2 < names.len() && k1 != k2 implies names[k1]
            != names[k2] by {
            if k1 > 0 {
                assert(self@.names()[k1] == self@.aliases[k1 - 1]);
            }
            if k2 > 0 {
                assert(self@.names()[k2] == self@.aliases[k2 - 1]);
            }
        }
        false
    }
}

/// In a registry the name and the aliases of all commands are pairwise
/// distinct, none of them is empty, and so are the names of the groups.
pub proof fn lemma_registry_well_formed<H>(registry: Registry<H>)
    requires
        registry.wf(),
    ensures
        well_formed(registry@),
{
    let groups = registry@;
    assert forall|g1: int, c1: int, k1: int, g2: int, c2: int, k2: int|
        is_place(groups, g1, c1, k1) && is_place(groups, g2, c2, k2) && #[trigger] name_at(
            groups,
            g1,
            c1,
            k1,
        ) == #[trigger] name_at(groups, g2, c2, k2) implies g1 == g2 && c1 == c2 && k1 == k2 by {
        let name = name_at(groups, g1, c1, k1);
        assert(registry.index@[name].0 == g1 && registry.index@[name].0 == g2);
        assert(registry.index@[name].1 == c1 && registry.index@[name].1 == c2);
    }
}

/// Where names are pairwise distinct, a name is found at its own place, and
/// the command that bears it is the one that `lookup_spec` gives.
pub proof fn lemma_lookup_finds<H>(groups: Seq<GroupView<H>>, g: int, c: int, k: int)
    requires
        names_distinct(groups),
        is_place(groups, g, c, k),
    ensures
        place_of(groups, name_at(groups, g, c, k)) == (g, c, k),
        lookup_spec(groups, name_at(groups, g, c, k)) == Some(groups[g].commands[c]),
{
    lemma_place_of(groups, name_at(groups, g, c, k));
}

/// A registered name stands at the place that `place_of` gives.
pub proof fn lemma_place_of<H>(groups: Seq<GroupView<H>>, name: Seq<char>)
    requires
        registered(groups, name),
    ensures
        ({
            let place = place_of(groups, name);
            is_place(groups, place.0, place.1, place.2) && name_at(
                groups,
                place.0,
                place.1,
                place.2,
            ) == name
        }),
{
    let (g, c, k) = choose|g: int, c: int, k: int|
        is_place(groups, g, c, k) && #[trigger] name_at(groups, g, c, k) == name;
    let p = (g, c, k);
    assert(is_place(groups, p.0, p.1, p.2) && name_at(groups, p.0, p.1, p.2) == name);
}

/// A command that uses a name or alias that is registered is refused as a
/// duplicate, whatever else holds of it and of the group it is meant for.
pub proof fn lemma_taken_name_refused<H>(
    groups: Seq<GroupView<H>>,
    group: Seq<char>,
    command: CommandView<H>,
    k: int,
)
    requires
        0 <= k < command.names().len(),
        registered(groups, command.names()[k]),
    ensures
        register_spec(groups, group, command) == Err::<Seq<GroupView<H>>, _>(
            RegistrationError::DuplicateName,
        ),
{
}

/// Once a command is registered, each of its names is registered, so that
/// no later command can use one of them.
pub proof fn lemma_registered_names_stay<H>(
    groups: Seq<GroupView<H>>,
    group: Seq<char>,
    command: CommandView<H>,
    k: int,
)
    requires
        register_spec(groups, group, command) is Ok,
        0 <= k < command.names().len(),
    ensures
        registered(register_spec(groups, group, command)->Ok_0, command.names()[k]),
        forall|name: Seq<char>|
            registered(groups, name) ==> registered(
                register_spec(groups, group, command)->Ok_0,
                name,
            ),
{
    let g = group_position(groups, group);
    lemma_with_command(groups, g, command);
    assert(command.names().contains(command.names()[k]));
}

/// One more command in a group adds that command's names, at the places
/// behind the group's other commands, and leaves the rest as it was.
proof fn lemma_with_command<H>(groups: Seq<GroupView<H>>, g: int, command: CommandView<H>)
    requires
        0 <= g < groups.len(),
    ensures
        forall|g1: int, c1: int, k1: int|
            is_place(with_command(groups, g, command), g1, c1, k1) <==> is_place(groups, g1, c1, k1)
                || (g1 == g && c1 == groups[g].commands.len() && 0 <= k1 < command.names().len()),
        forall|g1: int, c1: int, k1: int|
            is_place(groups, g1, c1, k1) ==> #[trigger] name_at(
                with_command(groups, g, command),
                g1,
                c1,
                k1,
            ) == name_at(groups, g1, c1, k1),
        forall|k1: int|
            0 <= k1 < command.names().len() ==> #[trigger] name_at(
                with_command(groups, g, command),
                g,
                groups[g].commands.len() as int,
                k1,
            ) == command.names()[k1],
        forall|name: Seq<char>|
            registered(with_command(groups, g, command), name) <==> registered(groups, name)
                || command.names().contains(name),
        forall|g1: int|
            0 <= g1 < groups.len() ==> (#[trigger] with_command(groups, g, command)[g1]).name
                == groups[g1].name,
        forall|name: Seq<char>|
            has_group(with_command(groups, g, command), name) <==> has_group(groups, name),
{
    let after = with_command(groups, g, command);
    let c = groups[g].commands.len() as int;
    assert forall|g1: int, c1: int, k1: int| is_place(after, g1, c1, k1) <==> is_place(
        groups,
        g1,
        c1,
        k1,
    ) || (g1 == g && c1 == c && 0 <= k1 < command.names().len()) by {
        if 0 <= g1 < groups.len() && g1 != g {
            assert(after[g1] == groups[g1]);
        }
    }
    assert forall|name: Seq<char>| registered(after, name) <==> registered(groups, name)
        || command.names().contains(name) by {
        if registered(after, name) {
            let (g1, c1, k1) = choose|g1: int, c1: int, k1: int|
                is_place(after, g1, c1, k1) && #[trigger] name_at(after, g1, c1, k1) == name;
            if is_place(groups, g1, c1, k1) {
                assert(name_at(groups, g1, c1, k1) == name);
            } else {
                assert(command.names()[k1] == name);
            }
        }
        if registered(groups, name) {
            let (g1, c1, k1) = choose|g1: int, c1: int, k1: int|
                is_place(groups, g1, c1, k1) && #[trigger] name_at(groups, g1, c1, k1) == name;
            assert(is_place(after, g1, c1, k1) && name_at(after, g1, c1, k1) == name);
        }
        if command.names().contains(name) {
            let k1 = choose|k1: int| 0 <= k1 < command.names().len() && command.names()[k1] == name;
            assert(is_place(after, g, c, k1) && name_at(after, g, c, k1) == name);
        }
    }
    assert forall|name: Seq<char>| has_group(after, name) <==> has_group(groups, name) by {
        if has_group(after, name) {
            let g1 = choose|g1: int| 0 <= g1 < after.len() && #[trigger] after[g1].name == name;
            assert(groups[g1].name == name);
        }
        if has_group(groups, name) {
            let g1 = choose|g1: int| 0 <= g1 < groups.len() && #[trigger] groups[g1].name == name;
            assert(after[g1].name == name);
        }
    }
}

/// A group without commands adds a group's name and no command's name.
proof fn lemma_push_group<H>(groups: Seq<GroupView<H>>, added: GroupView<H>)
    requires
        added.commands.len() == 0,
    ensures
        forall|g: int, c: int, k: int|
            is_place(groups.push(added), g, c, k) <==> is_place(groups, g, c, k),
        forall|g: int, c: int, k: int|
            is_place(groups, g, c, k) ==> #[trigger] name_at(groups.push(added), g, c, k)
                == name_at(groups, g, c, k),
        forall|name: Seq<char>| registered(groups.push(added), name) <==> registered(groups, name),
{
    let after = groups.push(added);
    assert forall|g: int, c: int, k: int| is_place(after, g, c, k) <==> is_place(
        groups,
        g,
        c,
        k,
    ) by {
        if 0 <= g < groups.len() {
            assert(after[g] == groups[g]);
        }
    }
    assert forall|name: Seq<char>| registered(after, name) <==> registered(groups, name) by {
        if registered(after, name) {
            let (g, c, k) = choose|g: int, c: int, k: int|
                is_place(after, g, c, k) && #[trigger] name_at(after, g, c, k) == name;
            assert(is_place(groups, g, c, k) && name_at(groups, g, c, k) == name);
        }
        if registered(groups, name) {
            let (g, c, k) = choose|g: int, c: int, k: int|
                is_place(groups, g, c, k) && #[trigger] name_at(groups, g, c, k) == name;
            assert(is_place(after, g, c, k) && name_at(after, g, c, k) == name);
        }
    }
}

} // verus!
