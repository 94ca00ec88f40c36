use vstd::prelude::*;
use crate::tags::{comma_items, split_ids};
use crate::text::{
    ascii_lower_chars, ascii_lower_seq, chars_eq, chars_of, string_of, subvec, texts_of, trim_chars,
    trim_seq,
};
use crate::window::{update_views, PickerOutput, PickerUpdate};

verus! {

// ---------------------------------------------------------------------------
// Truthy values
// ---------------------------------------------------------------------------

/// A value that switches something on: `1`, `true` or `yes`, trimmed, in
/// any ASCII case.
pub open spec fn truthy(v: Seq<char>) -> bool {
    let k = ascii_lower_seq(trim_seq(v));
    k == "1"@ || k == "true"@ || k == "yes"@
}

/// Whether a value switches something on.
pub fn is_truthy(v: &str) -> (b: bool)
    ensures
        b == truthy(v@),
{
    let k = ascii_lower_chars(&trim_chars(&chars_of(v)));
    chars_eq(&k, &chars_of("1")) || chars_eq(&k, &chars_of("true")) || chars_eq(&k, &chars_of("yes"))
}

// ---------------------------------------------------------------------------
// Command-line options
// ---------------------------------------------------------------------------

/// The options of a command line, as `--name value` pairs in the order
/// given; a later pair for a name wins.
pub struct Options {
    entries: Vec<(String, String)>,
}

pub open spec fn entry_views(v: Seq<(String, String)>) -> Seq<(Seq<char>, Seq<char>)> {
    v.map_values(|e: (String, String)| (e.0@, e.1@))
}

/// The map that a list of pairs makes, later pairs winning.
pub open spec fn entries_map(e: Seq<(Seq<char>, Seq<char>)>) -> Map<Seq<char>, Seq<char>>
    decreases e.len(),
{
    if e.len() == 0 {
        Map::empty()
    } else {
        entries_map(e.drop_last()).insert(e.last().0, e.last().1)
    }
}

impl View for Options {
    type V = Map<Seq<char>, Seq<char>>;

    closed spec fn view(&self) -> Map<Seq<char>, Seq<char>> {
        entries_map(entry_views(self.entries@))
    }
}

/// The options that take no value.
pub open spec fn is_flag_name(name: Seq<char>) -> bool {
    name == "json"@ || name == "all"@ || name == "hard"@ || name == "ui"@ || name == "project-only"@
        || name == "summary"@
}

pub open spec fn starts_with_dashes(s: Seq<char>) -> bool {
    s.len() >= 2 && s[0] == '-' && s[1] == '-'
}

/// `trim_start_matches("--")`: every leading `--` taken off.
pub open spec fn strip_dashes(s: Seq<char>) -> Seq<char>
    decreases s.len(),
{
    if starts_with_dashes(s) {
        strip_dashes(s.subrange(2, s.len() as int))
    } else {
        s
    }
}

/// The options of `args` from position `i` on, added to `acc`: each must
/// start with `--`; the flags stand alone and read `true`, every other name
/// takes the next argument as its value.
pub open spec fn parse_from(args: Seq<Seq<char>>, i: int, acc: Map<Seq<char>, Seq<char>>) -> Result<Map<Seq<char>, Seq<char>>, Seq<char>>
    decreases args.len() - i,
{
    if i < 0 || i >= args.len() {
        Ok(acc)
    } else {
        let key = args[i];
        if !starts_with_dashes(key) {
            Err("unexpected argument: "@ + key)
        } else {
            let name = strip_dashes(key);
            if is_flag_name(name) {
                parse_from(args, i + 1, acc.insert(name, "true"@))
            } else if i + 1 >= args.len() {
                Err("--"@ + name + " requires a value"@)
            } else {
                parse_from(args, i + 2, acc.insert(name, args[i + 1]))
            }
        }
    }
}

/// What the options of a command line are.
pub open spec fn parsed_options(args: Seq<Seq<char>>) -> Result<Map<Seq<char>, Seq<char>>, Seq<char>> {
    parse_from(args, 0, Map::empty())
}

fn strip_dashes_chars(v: &Vec<char>) -> (r: Vec<char>)
    ensures
        r@ == strip_dashes(v@),
{
    let n = v.len();
    let mut start: usize = 0;
    assert(v@.subrange(0, n as int) =~= v@);
    while n - start >= 2 && v[start] == '-' && v[start + 1] == '-'
        invariant
            start <= n == v.len(),
            strip_dashes(v@) == strip_dashes(v@.subrange(start as int, n as int)),
        decreases n - start,
    {
        let ghost rest = v@.subrange(start as int, n as int);
        assert(rest[0] == v@[start as int] && rest[1] == v@[start + 1]);
        assert(rest.subrange(2, rest.len() as int) =~= v@.subrange(start + 2, n as int));
        start += 2;
    }
    let ghost rest = v@.subrange(start as int, n as int);
    assert(rest.len() >= 2 ==> rest[0] == v@[start as int] && rest[1] == v@[start + 1]);
    subvec(v, start, n)
}

fn is_flag_chars(name: &Vec<char>) -> (b: bool)
    ensures
        b == is_flag_name(name@),
{
    chars_eq(name, &chars_of("json")) || chars_eq(name, &chars_of("all")) || chars_eq(name, &chars_of("hard"))
        || chars_eq(name, &chars_of("ui")) || chars_eq(name, &chars_of("project-only"))
        || chars_eq(name, &chars_of("summary"))
}

proof fn lemma_entries_push(e: Seq<(Seq<char>, Seq<char>)>, k: Seq<char>, v: Seq<char>)
    ensures
        entries_map(e.push((k, v))) == entries_map(e).insert(k, v),
{
    assert(e.push((k, v)).drop_last() =~= e);
}

impl Options {
    /// No options.
    pub fn new() -> (o: Options)
        ensures
            o@ == Map::<Seq<char>, Seq<char>>::empty(),
    {
        let o = Options { entries: Vec::new() };
        assert(entry_views(o.entries@) =~= Seq::<(Seq<char>, Seq<char>)>::empty());
        o
    }

    /// Sets option `name` to `value`.
    pub fn insert(&mut self, name: String, value: String)
        ensures
            final(self)@ == old(self)@.insert(name@, value@),
    {
        let ghost before = entry_views(self.entries@);
        let ghost nv = (name@, value@);
        self.entries.push((name, value));
        assert(entry_views(self.entries@) =~= before.push(nv));
        proof {
            lemma_entries_push(before, nv.0, nv.1);
        }
    }

    /// The value of option `name`, if it was given.
    pub fn get(&self, name: &str) -> (r: Option<String>)
        ensures
            match r {
                Some(v) => self@.contains_key(name@) && self@[name@] == v@,
                None => !self@.contains_key(name@),
            },
    {
        let ghost ev = entry_views(self.entries@);
        let mut found: Option<usize> = None;
        let mut i: usize = 0;
        while i < self.entries.len()
            invariant
                i <= self.entries.len(),
                ev == entry_views(self.entries@),
                match found {
                    Some(j) => j < i && entries_map(ev.take(i as int)).contains_key(name@)
                        && entries_map(ev.take(i as int))[name@] == ev[j as int].1,
                    None => !entries_map(ev.take(i as int)).contains_key(name@),
                },
            decreases self.entries.len() - i,
        {
            proof {
                lemma_entries_push(ev.take(i as int), ev[i as int].0, ev[i as int].1);
                assert(ev.take(i + 1) =~= ev.take(i as int).push(ev[i as int]));
            }
            if crate::text::str_eq(self.entries[i].0.as_str(), name) {
                found = Some(i);
            }
            i += 1;
        }
        assert(ev.take(self.entries.len() as int) =~= ev);
        match found {
            Some(j) => Some(self.entries[j].1.clone()),
            None => None,
        }
    }
}


// ---------------------------------------------------------------------------
// Reading the options
// ---------------------------------------------------------------------------

/// The value of an option, empty when it was not given.
pub open spec fn opt_value(m: Map<Seq<char>, Seq<char>>, name: Seq<char>) -> Seq<char> {
    if m.contains_key(name) { m[name] } else { Seq::empty() }
}

fn message2(a: &str, b: &Vec<char>) -> (r: String)
    ensures
        r@ == a@ + b@,
{
    let mut v = chars_of(a);
    crate::text::append_chars(&mut v, b);
    string_of(&v)
}

fn message3(a: &str, b: &Vec<char>, c: &str) -> (r: String)
    ensures
        r@ == a@ + b@ + c@,
{
    let mut v = chars_of(a);
    crate::text::append_chars(&mut v, b);
    crate::text::append_chars(&mut v, &chars_of(c));
    string_of(&v)
}

fn parse_options_from(args: &Vec<String>, start: usize) -> (r: Result<Options, String>)
    ensures
        match parse_from(texts_of(args@), start as int, Map::empty()) {
            Ok(m) => r matches Ok(o) && o@ == m,
            Err(e) => r matches Err(x) && x@ == e,
        },
{
    let ghost av = texts_of(args@);
    let mut options = Options::new();
    let mut index: usize = start;
    if index > args.len() {
        return Ok(options);
    }
    while index < args.len()
        invariant
            index <= args.len(),
            av == texts_of(args@),
            parse_from(av, start as int, Map::empty()) == parse_from(av, index as int, options@),
        decreases args.len() - index,
    {
        let key = chars_of(args[index].as_str());
        assert(key@ == av[index as int]);
        if !(key.len() >= 2 && key[0] == '-' && key[1] == '-') {
            return Err(message2("unexpected argument: ", &key));
        }
        let name = strip_dashes_chars(&key);
        if is_flag_chars(&name) {
            options.insert(string_of(&name), "true".to_string());
            index += 1;
            continue;
        }
        if index + 1 >= args.len() {
            return Err(message3("--", &name, " requires a value"));
        }
        options.insert(string_of(&name), args[index + 1].clone());
        index += 2;
    }
    Ok(options)
}

/// Reads `--name value` options; `--json`, `--all`, `--hard`, `--ui`,
/// `--project-only` and `--summary` stand alone.
pub fn parse_options(args: &Vec<String>) -> (r: Result<Options, String>)
    ensures
        match parsed_options(texts_of(args@)) {
            Ok(m) => r matches Ok(o) && o@ == m,
            Err(e) => r matches Err(x) && x@ == e,
        },
{
    parse_options_from(args, 0)
}

/// The value of option `name`, or empty.
pub fn opt(options: &Options, name: &str) -> (r: String)
    ensures
        r@ == opt_value(options@, name@),
{
    match options.get(name) {
        Some(v) => v,
        None => String::new(),
    }
}

/// Whether option `name` was given with a truthy value.
pub fn flag(options: &Options, name: &str) -> (b: bool)
    ensures
        b == (options@.contains_key(name@) && truthy(options@[name@])),
{
    match options.get(name) {
        Some(v) => is_truthy(v.as_str()),
        None => false,
    }
}

/// The value of option `name`; an error when it is missing or blank.
pub fn required(options: &Options, name: &str) -> (r: Result<String, String>)
    ensures
        trim_seq(opt_value(options@, name@)).len() == 0 ==> (r matches Err(e) && e@ == "--"@ + name@ + " is required"@),
        trim_seq(opt_value(options@, name@)).len() > 0 ==> (r matches Ok(v) && v@ == opt_value(options@, name@)),
{
    let value = opt(options, name);
    if trim_chars(&chars_of(value.as_str())).len() == 0 {
        return Err(message3("--", &chars_of(name), " is required"));
    }
    Ok(value)
}

// ---------------------------------------------------------------------------
// Commands
// ---------------------------------------------------------------------------

/// The usage text.
pub fn help_text() -> (r: String)
    ensures
        r@ == "Usage: rule-system <command> [options]\n\nCommands:\n  add              Add project-level rule\n  list             List rules selected by current session\n  update           Update selected project rule\n  delete           Unselect rule from current session\n  project-list     List project-level rules\n  project-update   Update project-level rule\n  project-delete   Deprecate or hard-delete project-level rule\n  pick             Select project rules for current session\n  check            Open native checklist manager\n  scan             Import legacy YAML rules into SQLite"@,
{
    "Usage: rule-system <command> [options]\n\nCommands:\n  add              Add project-level rule\n  list             List rules selected by current session\n  update           Update selected project rule\n  delete           Unselect rule from current session\n  project-list     List project-level rules\n  project-update   Update project-level rule\n  project-delete   Deprecate or hard-delete project-level rule\n  pick             Select project rules for current session\n  check            Open native checklist manager\n  scan             Import legacy YAML rules into SQLite".to_string()
}

/// What the program does for its arguments.
#[derive(PartialEq, Eq, Structural)]
pub enum AppMode {
    /// Run the picker protocol (`--rules ...`).
    Picker,
    /// Print the usage text.
    Help,
    /// Run a command.
    Cli,
}

pub open spec fn app_mode_of(args: Seq<Seq<char>>) -> AppMode {
    if args.len() > 0 && args[0] == "--rules"@ {
        AppMode::Picker
    } else if args.len() == 0 || args[0] == "-h"@ || args[0] == "--help"@ {
        AppMode::Help
    } else {
        AppMode::Cli
    }
}

/// The mode for the program's arguments.
pub fn app_mode(args: &Vec<String>) -> (r: AppMode)
    ensures
        r == app_mode_of(texts_of(args@)),
{
    if args.len() > 0 && crate::text::str_eq(args[0].as_str(), "--rules") {
        return AppMode::Picker;
    }
    if args.len() == 0 || crate::text::str_eq(args[0].as_str(), "-h") || crate::text::str_eq(args[0].as_str(), "--help") {
        return AppMode::Help;
    }
    AppMode::Cli
}

/// The commands.
#[derive(PartialEq, Eq, Structural)]
pub enum Command {
    Add,
    List,
    Update,
    Delete,
    ProjectList,
    ProjectUpdate,
    ProjectDelete,
    Pick,
    Check,
    Scan,
}

pub open spec fn command_of(name: Seq<char>) -> Option<Command> {
    if name == "add"@ {
        Some(Command::Add)
    } else if name == "list"@ {
        Some(Command::List)
    } else if name == "update"@ {
        Some(Command::Update)
    } else if name == "delete"@ {
        Some(Command::Delete)
    } else if name == "project-list"@ {
        Some(Command::ProjectList)
    } else if name == "project-update"@ {
        Some(Command::ProjectUpdate)
    } else if name == "project-delete"@ {
        Some(Command::ProjectDelete)
    } else if name == "pick"@ {
        Some(Command::Pick)
    } else if name == "check"@ {
        Some(Command::Check)
    } else if name == "scan"@ {
        Some(Command::Scan)
    } else {
        None
    }
}

fn command_from(name: &str) -> (r: Option<Command>)
    ensures
        r == command_of(name@),
{
    if crate::text::str_eq(name, "add") {
        Some(Command::Add)
    } else if crate::text::str_eq(name, "list") {
        Some(Command::List)
    } else if crate::text::str_eq(name, "update") {
        Some(Command::Update)
    } else if crate::text::str_eq(name, "delete") {
        Some(Command::Delete)
    } else if crate::text::str_eq(name, "project-list") {
        Some(Command::ProjectList)
    } else if crate::text::str_eq(name, "project-update") {
        Some(Command::ProjectUpdate)
    } else if crate::text::str_eq(name, "project-delete") {
        Some(Command::ProjectDelete)
    } else if crate::text::str_eq(name, "pick") {
        Some(Command::Pick)
    } else if crate::text::str_eq(name, "check") {
        Some(Command::Check)
    } else if crate::text::str_eq(name, "scan") {
        Some(Command::Scan)
    } else {
        None
    }
}

/// The command and the options of a command line: the first argument
/// names the command, the rest are its options (read first).
pub fn parse_command(args: &Vec<String>) -> (r: Result<(Command, Options), String>)
    ensures
        args@.len() == 0 ==> (r matches Err(e) && e@ == "command is required"@),
        args@.len() > 0 ==> match parse_from(texts_of(args@), 1, Map::empty()) {
            Err(e) => r matches Err(x) && x@ == e,
            Ok(m) => match command_of(args@[0]@) {
                Some(c) => r matches Ok((c2, o)) && c2 == c && o@ == m,
                None => r matches Err(x) && x@ == "unknown command: "@ + args@[0]@,
            },
        },
{
    if args.len() == 0 {
        return Err("command is required".to_string());
    }
    let options = parse_options_from(args, 1)?;
    match command_from(args[0].as_str()) {
        Some(c) => Ok((c, options)),
        None => Err(message2("unknown command: ", &chars_of(args[0].as_str()))),
    }
}

// ---------------------------------------------------------------------------
// The picker protocol
// ---------------------------------------------------------------------------

/// The picker's arguments: the rules file and the first search.
pub struct Args {
    pub rules_file: String,
    pub query: String,
}

/// The picker's arguments from position `i` on, given what was read so far.
pub open spec fn args_from(args: Seq<Seq<char>>, i: int, rules: Option<Seq<char>>, query: Seq<char>, program: Seq<char>) -> Result<(Seq<char>, Seq<char>), Seq<char>>
    decreases args.len() - i,
{
    if i < 0 || i >= args.len() {
        match rules {
            Some(r) => Ok((r, query)),
            None => Err("--rules is required"@),
        }
    } else if args[i] == "--rules"@ {
        if i + 1 >= args.len() {
            Err("--rules requires a file path"@)
        } else {
            args_from(args, i + 2, Some(args[i + 1]), query, program)
        }
    } else if args[i] == "--query"@ {
        if i + 1 >= args.len() {
            Err("--query requires a value"@)
        } else {
            args_from(args, i + 2, rules, args[i + 1], program)
        }
    } else if args[i] == "--help"@ || args[i] == "-h"@ {
        Err("Usage: "@ + program + " --rules <rules.json> [--query <text>]"@)
    } else {
        Err("Unknown argument: "@ + args[i])
    }
}

impl Args {
    /// Reads `--rules <file>` (required) and `--query <text>`; `--help`
    /// answers the usage of `program`.
    pub fn parse_for(program: &str, args: &Vec<String>) -> (r: Result<Args, String>)
        ensures
            match args_from(texts_of(args@), 0, None, Seq::empty(), program@) {
                Ok((f, q)) => r matches Ok(a) && a.rules_file@ == f && a.query@ == q,
                Err(e) => r matches Err(x) && x@ == e,
            },
    {
        let ghost av = texts_of(args@);
        let mut rules_file: Option<String> = None;
        let mut query = String::new();
        let mut index: usize = 0;
        proof {
            reveal_strlit("");
        }
        while index < args.len()
            invariant
                index <= args.len(),
                av == texts_of(args@),
                args_from(av, 0, None, Seq::empty(), program@) == args_from(av, index as int,
                    match rules_file { Some(f) => Some(f@), None => None }, query@, program@),
            decreases args.len() - index,
        {
            let a = args[index].as_str();
            assert(a@ == av[index as int]);
            if crate::text::str_eq(a, "--rules") {
                if index + 1 >= args.len() {
                    return Err("--rules requires a file path".to_string());
                }
                rules_file = Some(args[index + 1].clone());
                index += 2;
            } else if crate::text::str_eq(a, "--query") {
                if index + 1 >= args.len() {
                    return Err("--query requires a value".to_string());
                }
                query = args[index + 1].clone();
                index += 2;
            } else if crate::text::str_eq(a, "--help") || crate::text::str_eq(a, "-h") {
                return Err(message3("Usage: ", &chars_of(program), " --rules <rules.json> [--query <text>]"));
            } else {
                return Err(message2("Unknown argument: ", &chars_of(a)));
            }
        }
        match rules_file {
            Some(f) => Ok(Args { rules_file: f, query }),
            None => Err("--rules is required".to_string()),
        }
    }

    /// Reads the picker arguments of `rule-system`.
    pub fn parse(args: Vec<String>) -> (r: Result<Args, String>)
        ensures
            match args_from(texts_of(args@), 0, None, Seq::empty(), "rule-system"@) {
                Ok((f, q)) => r matches Ok(a) && a.rules_file@ == f && a.query@ == q,
                Err(e) => r matches Err(x) && x@ == e,
            },
    {
        Args::parse_for("rule-system", &args)
    }
}

/// `split(',')`, trimmed, without empty ids.
pub fn split_picker_ids(raw: &str) -> (r: Vec<String>)
    ensures
        texts_of(r@) == comma_items(raw@),
{
    split_ids(raw)
}

/// The answer the picker gives without a window, from the environment:
/// a truthy cancel variable cancels; otherwise, when the ids variable is
/// set, its ids are picked with the updates given (none when absent or
/// unreadable); otherwise there is no such answer.
pub fn headless_output(cancel: Option<String>, ids: Option<String>, updates: Option<Vec<PickerUpdate>>) -> (r: Option<PickerOutput>)
    ensures
        match cancel {
            Some(c) if truthy(c@) => r matches Some(o) && o.cancelled && o.selected_ids@.len() == 0 && o.updates@.len() == 0,
            _ => match ids {
                None => r is None,
                Some(i) => r matches Some(o) && !o.cancelled && texts_of(o.selected_ids@) == comma_items(i@)
                    && update_views(o.updates@) == match updates {
                        Some(u) => update_views(u@),
                        None => Seq::empty(),
                    },
            },
        },
{
    let cancelled = match &cancel {
        Some(c) => is_truthy(c.as_str()),
        None => false,
    };
    if cancelled {
        return Some(PickerOutput { selected_ids: Vec::new(), updates: Vec::new(), cancelled: true });
    }
    match ids {
        None => None,
        Some(i) => {
            let updates = match updates {
                Some(u) => u,
                None => {
                    let u: Vec<PickerUpdate> = Vec::new();
                    assert(update_views(u@) =~= Seq::<crate::window::UpdateView>::empty());
                    u
                },
            };
            Some(PickerOutput { selected_ids: split_picker_ids(i.as_str()), updates, cancelled: false })
        },
    }
}

/// What the picker protocol does next.
pub enum PickerStart {
    /// The answer is known without a window.
    Done(PickerOutput),
    /// Open the window with these arguments.
    Open(Args),
}

/// The picker protocol: a headless answer when there is one, else the
/// window for the arguments given.
pub fn run_picker_protocol(args: Vec<String>, headless: Option<PickerOutput>) -> (r: Result<PickerStart, String>)
    ensures
        match headless {
            Some(o) => r matches Ok(PickerStart::Done(p)) && p == o,
            None => match args_from(texts_of(args@), 0, None, Seq::empty(), "rule-system"@) {
                Ok((f, q)) => r matches Ok(PickerStart::Open(a)) && a.rules_file@ == f && a.query@ == q,
                Err(e) => r matches Err(x) && x@ == e,
            },
        },
{
    if let Some(output) = headless {
        return Ok(PickerStart::Done(output));
    }
    let parsed = Args::parse(args)?;
    Ok(PickerStart::Open(parsed))
}

} // verus!
