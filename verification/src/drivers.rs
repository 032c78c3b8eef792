//! The output drivers: which programs each of them needs, and which commands it runs to inject a
//! text.

use crate::text;
use vstd::prelude::*;

verus! {

/// A command to run: it must exit with success before the next one runs.
#[derive(Debug)]
pub struct Invocation {
    pub program: String,
    pub args: Vec<String>,
    /// What is written to the standard input, if it is piped.
    pub stdin: Option<String>,
    /// The error when the command cannot be started.
    pub spawn_error: String,
    /// The error, up to the exit status, when the command does not succeed.
    pub exit_error: String,
}

/// What an [`Invocation`] holds.
pub struct Run {
    pub program: Seq<char>,
    pub args: Seq<Seq<char>>,
    pub stdin: Option<Seq<char>>,
    pub spawn_error: Seq<char>,
    pub exit_error: Seq<char>,
}

impl View for Invocation {
    type V = Run;

    open spec fn view(&self) -> Run {
        Run {
            program: self.program@,
            args: text::texts(self.args@),
            stdin: match self.stdin {
                Some(s) => Some(s@),
                None => None,
            },
            spawn_error: self.spawn_error@,
            exit_error: self.exit_error@,
        }
    }
}

/// What each of the invocations holds.
pub open spec fn runs(invocations: Seq<Invocation>) -> Seq<Run> {
    invocations.map_values(|i: Invocation| i@)
}

/// Types through the virtual keyboard of wlroots compositors.
#[derive(Debug)]
pub struct WtypeInjector;

/// Types through the dotool daemon.
#[derive(Debug)]
pub struct DotoolInjector;

/// Copies to the Wayland clipboard.
#[derive(Debug)]
pub struct ClipboardInjector;

/// Copies to the Wayland clipboard and then presses a paste key, which is safe for terminals.
#[derive(Debug)]
pub struct PasteInjector {
    /// The modifier keys, as in "ctrl" and "shift".
    pub modifiers: Vec<String>,
    /// The final key, as in "v".
    pub key: String,
}

/// The command that types `text` by wtype. The separator keeps a text that starts with a dash from
/// being taken for a flag.
pub open spec fn wtype_run(text: Seq<char>) -> Run {
    Run {
        program: "wtype"@,
        args: seq!["--"@, text],
        stdin: None,
        spawn_error: "failed to run wtype"@,
        exit_error: "wtype exited with "@,
    }
}

/// The command that types `text` by dotool.
pub open spec fn dotool_run(text: Seq<char>) -> Run {
    Run {
        program: "dotoolc"@,
        args: Seq::empty(),
        stdin: Some("type "@ + text),
        spawn_error: "failed to run dotoolc"@,
        exit_error: "dotoolc exited with "@,
    }
}

/// The command that copies `text` to the clipboard.
pub open spec fn copy_run(text: Seq<char>) -> Run {
    Run {
        program: "wl-copy"@,
        args: Seq::empty(),
        stdin: Some(text),
        spawn_error: "failed to run wl-copy"@,
        exit_error: "wl-copy exited with "@,
    }
}

/// The arguments that press each of `modifiers`, in order.
pub open spec fn pressing(modifiers: Seq<Seq<char>>) -> Seq<Seq<char>>
    decreases modifiers.len(),
{
    if modifiers.len() == 0 {
        Seq::empty()
    } else {
        pressing(modifiers.drop_last()).push("-M"@).push(modifiers.last())
    }
}

/// The arguments that release each of `modifiers`, the last one first.
pub open spec fn releasing(modifiers: Seq<Seq<char>>) -> Seq<Seq<char>>
    decreases modifiers.len(),
{
    if modifiers.len() == 0 {
        Seq::empty()
    } else {
        seq!["-m"@, modifiers.last()] + releasing(modifiers.drop_last())
    }
}

/// The command that presses `key` while `modifiers` are held.
pub open spec fn paste_run(modifiers: Seq<Seq<char>>, key: Seq<char>) -> Run {
    Run {
        program: "wtype"@,
        args: pressing(modifiers) + seq!["-k"@, key] + releasing(modifiers),
        stdin: None,
        spawn_error: "failed to run wtype for paste"@,
        exit_error: "wtype paste exited with "@,
    }
}

/// Nothing for an empty text, else `all`.
pub open spec fn unless_no_text(text: Seq<char>, all: Seq<Run>) -> Seq<Run> {
    if text.len() == 0 {
        Seq::empty()
    } else {
        all
    }
}

/// The parts of `s` between the occurrences of `separator`.
pub open spec fn split_at_each(s: Seq<char>, separator: char) -> Seq<Seq<char>>
    decreases s.len(),
{
    if s.len() == 0 {
        seq![Seq::empty()]
    } else {
        let before = split_at_each(s.drop_last(), separator);
        if s.last() == separator {
            before.push(Seq::empty())
        } else {
            before.drop_last().push(before.last().push(s.last()))
        }
    }
}

impl WtypeInjector {
    pub fn name(&self) -> (name: &'static str)
        ensures
            name@ == "wtype"@,
    {
        "wtype"
    }

    /// The programs that must be installed.
    pub fn programs(&self) -> (programs: Vec<String>)
        ensures
            text::texts(programs@) == seq!["wtype"@],
    {
        let programs = vec!["wtype".to_string()];
        proof {
            assert(text::texts(programs@) =~= seq!["wtype"@]);
        }
        programs
    }

    /// The commands that inject `text`.
    pub fn plan(&self, text: &str) -> (plan: Vec<Invocation>)
        ensures
            runs(plan@) == unless_no_text(text@, seq![wtype_run(text@)]),
    {
        if text.is_empty() {
            return Vec::new();
        }
        let typing = Invocation {
            program: "wtype".to_string(),
            args: vec!["--".to_string(), text.to_string()],
            stdin: None,
            spawn_error: "failed to run wtype".to_string(),
            exit_error: "wtype exited with ".to_string(),
        };
        proof {
            assert(typing@.args =~= seq!["--"@, text@]);
        }
        vec![typing]
    }
}

impl DotoolInjector {
    pub fn name(&self) -> (name: &'static str)
        ensures
            name@ == "dotool"@,
    {
        "dotool"
    }

    /// The programs that must be installed.
    pub fn programs(&self) -> (programs: Vec<String>)
        ensures
            text::texts(programs@) == seq!["dotoolc"@],
    {
        let programs = vec!["dotoolc".to_string()];
        proof {
            assert(text::texts(programs@) =~= seq!["dotoolc"@]);
        }
        programs
    }

    /// The commands that inject `text`.
    pub fn plan(&self, text: &str) -> (plan: Vec<Invocation>)
        ensures
            runs(plan@) == unless_no_text(text@, seq![dotool_run(text@)]),
    {
        if text.is_empty() {
            return Vec::new();
        }
        let mut line = "type ".to_string();
        line.append(text);
        let typing = Invocation {
            program: "dotoolc".to_string(),
            args: Vec::new(),
            stdin: Some(line),
            spawn_error: "failed to run dotoolc".to_string(),
            exit_error: "dotoolc exited with ".to_string(),
        };
        proof {
            assert(typing@.args =~= Seq::<Seq<char>>::empty());
        }
        vec![typing]
    }
}

/// The command that copies `text` to the clipboard.
fn copying(text: &str) -> (copy: Invocation)
    ensures
        copy@ == copy_run(text@),
{
    let copy = Invocation {
        program: "wl-copy".to_string(),
        args: Vec::new(),
        stdin: Some(text.to_string()),
        spawn_error: "failed to run wl-copy".to_string(),
        exit_error: "wl-copy exited with ".to_string(),
    };
    proof {
        assert(copy@.args =~= Seq::<Seq<char>>::empty());
    }
    copy
}

impl ClipboardInjector {
    pub fn name(&self) -> (name: &'static str)
        ensures
            name@ == "clipboard"@,
    {
        "clipboard"
    }

    /// The programs that must be installed.
    pub fn programs(&self) -> (programs: Vec<String>)
        ensures
            text::texts(programs@) == seq!["wl-copy"@],
    {
        let programs = vec!["wl-copy".to_string()];
        proof {
            assert(text::texts(programs@) =~= seq!["wl-copy"@]);
        }
        programs
    }

    /// The commands that inject `text`.
    pub fn plan(&self, text: &str) -> (plan: Vec<Invocation>)
        ensures
            runs(plan@) == unless_no_text(text@, seq![copy_run(text@)]),
    {
        if text.is_empty() {
            return Vec::new();
        }
        vec![copying(text)]
    }
}

impl PasteInjector {
    /// Reads a keystroke such as "ctrl+shift+v": the part after the last plus sign is the key, the
    /// parts before it are the modifiers.
    pub fn new(paste_keys: &str) -> (injector: Self)
        ensures
            text::texts(injector.modifiers@).push(injector.key@) == split_at_each(
                paste_keys@,
                '+',
            ),
    {
        let chars = text::chars_of(paste_keys);
        let mut modifiers: Vec<String> = Vec::new();
        let mut key = String::new();
        let mut i: usize = 0;
        while i < chars.len()
            invariant
                i <= chars@.len(),
                text::texts(modifiers@).push(key@) == split_at_each(chars@.take(i as int), '+'),
            decreases chars@.len() - i,
        {
            let c = chars[i];
            let ghost before = text::texts(modifiers@).push(key@);
            let ghost parts = text::texts(modifiers@);
            proof {
                assert(chars@.take(i + 1).drop_last() =~= chars@.take(i as int));
                assert(before.drop_last() =~= parts);
            }
            if c == '+' {
                let part = key;
                proof {
                    assert(text::texts(modifiers@.push(part)) =~= parts.push(part@));
                }
                modifiers.push(part);
                key = String::new();
            } else {
                key.push(c);
            }
            i = i + 1;
        }
        proof {
            assert(chars@.take(i as int) =~= chars@);
        }
        PasteInjector { modifiers, key }
    }

    pub fn name(&self) -> (name: &'static str)
        ensures
            name@ == "paste"@,
    {
        "paste"
    }

    /// The programs that must be installed.
    pub fn programs(&self) -> (programs: Vec<String>)
        ensures
            text::texts(programs@) == seq!["wl-copy"@, "wtype"@],
    {
        let programs = vec!["wl-copy".to_string(), "wtype".to_string()];
        proof {
            assert(text::texts(programs@) =~= seq!["wl-copy"@, "wtype"@]);
        }
        programs
    }

    /// The commands that inject `text`.
    pub fn plan(&self, text: &str) -> (plan: Vec<Invocation>)
        ensures
            runs(plan@) == unless_no_text(
                text@,
                seq![copy_run(text@), paste_run(text::texts(self.modifiers@), self.key@)],
            ),
    {
        if text.is_empty() {
            return Vec::new();
        }
        let keystroke = Invocation {
            program: "wtype".to_string(),
            args: self.keystroke_args(),
            stdin: None,
            spawn_error: "failed to run wtype for paste".to_string(),
            exit_error: "wtype paste exited with ".to_string(),
        };
        vec![copying(text), keystroke]
    }

    /// The arguments by which wtype presses the paste key.
    fn keystroke_args(&self) -> (args: Vec<String>)
        ensures
            text::texts(args@) == paste_run(text::texts(self.modifiers@), self.key@).args,
    {
        let ghost held = text::texts(self.modifiers@);
        let mut args: Vec<String> = Vec::new();
        let mut i: usize = 0;
        while i < self.modifiers.len()
            invariant
                i <= self.modifiers@.len(),
                held == text::texts(self.modifiers@),
                text::texts(args@) == pressing(held.take(i as int)),
            decreases self.modifiers@.len() - i,
        {
            push_pair(&mut args, "-M", self.modifiers[i].as_str());
            proof {
                assert(held.take(i + 1).drop_last() =~= held.take(i as int));
            }
            i = i + 1;
        }
        proof {
            assert(held.take(i as int) =~= held);
        }
        push_pair(&mut args, "-k", self.key.as_str());
        let ghost pressed = text::texts(args@);
        proof {
            assert(pressed =~= pressing(held) + seq!["-k"@, self.key@]);
        }
        while i > 0
            invariant
                i <= self.modifiers@.len(),
                held == text::texts(self.modifiers@),
                text::texts(args@) + releasing(held.take(i as int)) == pressed + releasing(held),
            decreases i,
        {
            i = i - 1;
            let ghost before = text::texts(args@);
            push_pair(&mut args, "-m", self.modifiers[i].as_str());
            proof {
                assert(held.take(i + 1).drop_last() =~= held.take(i as int));
                assert(before + releasing(held.take(i + 1)) =~= text::texts(args@) + releasing(
                    held.take(i as int),
                ));
            }
        }
        proof {
            assert(text::texts(args@) =~= pressed + releasing(held));
        }
        args
    }
}

/// Appends a flag and its value.
fn push_pair(args: &mut Vec<String>, flag: &str, value: &str)
    ensures
        text::texts(final(args)@) == text::texts(old(args)@).push(flag@).push(value@),
{
    let ghost before = text::texts(args@);
    args.push(flag.to_string());
    args.push(value.to_string());
    proof {
        assert(text::texts(args@) =~= before.push(flag@).push(value@));
    }
}

/// One of the output drivers.
#[derive(Debug)]
pub enum Driver {
    Wtype(WtypeInjector),
    Dotool(DotoolInjector),
    Clipboard(ClipboardInjector),
    Paste(PasteInjector),
}

impl Driver {
    pub open spec fn name_text(&self) -> Seq<char> {
        match self {
            Driver::Wtype(_) => "wtype"@,
            Driver::Dotool(_) => "dotool"@,
            Driver::Clipboard(_) => "clipboard"@,
            Driver::Paste(_) => "paste"@,
        }
    }

    /// The programs that must be installed.
    pub open spec fn needs(&self) -> Seq<Seq<char>> {
        match self {
            Driver::Wtype(_) => seq!["wtype"@],
            Driver::Dotool(_) => seq!["dotoolc"@],
            Driver::Clipboard(_) => seq!["wl-copy"@],
            Driver::Paste(_) => seq!["wl-copy"@, "wtype"@],
        }
    }

    /// The commands that inject `text`.
    pub open spec fn commands(&self, text: Seq<char>) -> Seq<Run> {
        unless_no_text(
            text,
            match self {
                Driver::Wtype(_) => seq![wtype_run(text)],
                Driver::Dotool(_) => seq![dotool_run(text)],
                Driver::Clipboard(_) => seq![copy_run(text)],
                Driver::Paste(paste) => seq![
                    copy_run(text),
                    paste_run(text::texts(paste.modifiers@), paste.key@),
                ],
            },
        )
    }

    pub fn name(&self) -> (name: &'static str)
        ensures
            name@ == self.name_text(),
    {
        match self {
            Driver::Wtype(driver) => driver.name(),
            Driver::Dotool(driver) => driver.name(),
            Driver::Clipboard(driver) => driver.name(),
            Driver::Paste(driver) => driver.name(),
        }
    }

    /// The programs that must be installed.
    pub fn programs(&self) -> (programs: Vec<String>)
        ensures
            text::texts(programs@) == self.needs(),
    {
        match self {
            Driver::Wtype(driver) => driver.programs(),
            Driver::Dotool(driver) => driver.programs(),
            Driver::Clipboard(driver) => driver.programs(),
            Driver::Paste(driver) => driver.programs(),
        }
    }

    /// The commands that inject `text`, to be run in order.
    pub fn plan(&self, text: &str) -> (plan: Vec<Invocation>)
        ensures
            runs(plan@) == self.commands(text@),
    {
        match self {
            Driver::Wtype(driver) => driver.plan(text),
            Driver::Dotool(driver) => driver.plan(text),
            Driver::Clipboard(driver) => driver.plan(text),
            Driver::Paste(driver) => driver.plan(text),
        }
    }
}

/// `parts` with `separator` between them.
pub open spec fn joined(parts: Seq<Seq<char>>, separator: char) -> Seq<char>
    decreases parts.len(),
{
    if parts.len() == 0 {
        Seq::empty()
    } else if parts.len() == 1 {
        parts[0]
    } else {
        joined(parts.drop_last(), separator).push(separator) + parts.last()
    }
}

/// The parts of a keystroke, joined again, are the keystroke, and none of them holds the
/// separator.
pub proof fn law_keystroke_parts_make_up_the_keystroke(s: Seq<char>, separator: char)
    ensures
        split_at_each(s, separator).len() > 0,
        joined(split_at_each(s, separator), separator) == s,
        forall|i: int|
            0 <= i < split_at_each(s, separator).len() ==> !(#[trigger] split_at_each(
                s,
                separator,
            )[i]).contains(separator),
    decreases s.len(),
{
    let parts = split_at_each(s, separator);
    if s.len() == 0 {
        reveal_with_fuel(joined, 2);
    } else {
        law_keystroke_parts_make_up_the_keystroke(s.drop_last(), separator);
        let before = split_at_each(s.drop_last(), separator);
        if s.last() == separator {
            assert(parts.drop_last() =~= before);
            assert(joined(parts, separator) =~= s);
            assert forall|i: int| 0 <= i < parts.len() implies !(#[trigger] parts[i]).contains(
                separator,
            ) by {
                if i < before.len() {
                    assert(parts[i] == before[i]);
                }
            }
        } else {
            assert(parts.drop_last() =~= before.drop_last());
            assert(joined(parts, separator) =~= joined(before, separator).push(s.last()));
            assert(joined(parts, separator) =~= s);
            assert forall|i: int| 0 <= i < parts.len() implies !(#[trigger] parts[i]).contains(
                separator,
            ) by {
                assert(!before[i].contains(separator));
                if i == before.len() - 1 && parts[i].contains(separator) {
                    let k = choose|k: int| 0 <= k < parts[i].len() && parts[i][k] == separator;
                    assert(before[i][k] == separator);
                }
            }
        }
    }
}

/// Nothing is run for an empty text, whatever the driver.
pub proof fn law_empty_text_runs_nothing(driver: Driver)
    ensures
        driver.commands(Seq::empty()) == Seq::<Run>::empty(),
{
}

/// A driver runs no program but those that it needs.
pub proof fn law_drivers_run_what_they_need(driver: Driver, text: Seq<char>)
    ensures
        forall|i: int|
            0 <= i < driver.commands(text).len() ==> driver.needs().contains(
                (#[trigger] driver.commands(text)[i]).program,
            ),
{
    let needs = driver.needs();
    assert(needs[0] == needs.first());
    if driver is Paste {
        assert(needs[1] == "wtype"@);
    }
}

/// Every modifier that is pressed for the paste key is released again, in reverse order.
pub proof fn law_modifiers_are_released(modifiers: Seq<Seq<char>>)
    ensures
        pressing(modifiers).len() == 2 * modifiers.len(),
        releasing(modifiers).len() == 2 * modifiers.len(),
        forall|i: int|
            0 <= i < modifiers.len() ==> #[trigger] modifiers[i] == pressing(modifiers)[2 * i + 1]
                && modifiers[i] == releasing(modifiers)[2 * (modifiers.len() - i) - 1],
    decreases modifiers.len(),
{
    if modifiers.len() > 0 {
        let rest = modifiers.drop_last();
        law_modifiers_are_released(rest);
        assert forall|i: int| 0 <= i < modifiers.len() implies #[trigger] modifiers[i] == pressing(
            modifiers,
        )[2 * i + 1] && modifiers[i] == releasing(modifiers)[2 * (modifiers.len() - i) - 1] by {
            if i < rest.len() {
                assert(modifiers[i] == rest[i]);
                assert(releasing(modifiers)[2 * (modifiers.len() - i) - 1] == releasing(rest)[2 * (
                rest.len() - i) - 1]);
            }
        }
    }
}

/// The wtype driver has the text typed as it is, its outer white space with it, behind a separator.
pub proof fn law_wtype_types_the_text_itself(driver: WtypeInjector, text: Seq<char>)
    requires
        text.len() > 0,
    ensures
        ({
            let commands = Driver::Wtype(driver).commands(text);
            &&& commands.len() == 1
            &&& commands[0].program == "wtype"@
            &&& commands[0].args.len() == 2
            &&& commands[0].args[0] == "--"@
            &&& commands[0].args[1] == text
            &&& commands[0].stdin is None
            &&& commands[0].spawn_error == "failed to run wtype"@
            &&& commands[0].exit_error == "wtype exited with "@
        }),
{
}

/// The dotool driver has the text typed as it is, by one command that says so.
pub proof fn law_dotool_types_the_text_itself(driver: DotoolInjector, text: Seq<char>)
    requires
        text.len() > 0,
    ensures
        ({
            let commands = Driver::Dotool(driver).commands(text);
            &&& commands.len() == 1
            &&& commands[0].program == "dotoolc"@
            &&& commands[0].args.len() == 0
            &&& commands[0].stdin == Some("type "@ + text)
            &&& commands[0].spawn_error == "failed to run dotoolc"@
            &&& commands[0].exit_error == "dotoolc exited with "@
        }),
{
}

/// The clipboard driver has the text copied as it is.
pub proof fn law_clipboard_gets_the_text_itself(driver: ClipboardInjector, text: Seq<char>)
    requires
        text.len() > 0,
    ensures
        ({
            let commands = Driver::Clipboard(driver).commands(text);
            &&& commands.len() == 1
            &&& commands[0].program == "wl-copy"@
            &&& commands[0].args.len() == 0
            &&& commands[0].stdin == Some(text)
            &&& commands[0].spawn_error == "failed to run wl-copy"@
            &&& commands[0].exit_error == "wl-copy exited with "@
        }),
{
}

/// Whether a flag and its value stand in `args` from `at` on.
pub open spec fn pair_at(args: Seq<Seq<char>>, at: int, flag: Seq<char>, value: Seq<char>) -> bool {
    args[at] == flag && args[at + 1] == value
}

/// The paste driver has the text copied as it is, and then the paste key pressed: the modifiers go
/// down in order, the key is struck, and the modifiers come up in reverse order.
pub proof fn law_paste_copies_the_text_itself(driver: PasteInjector, text: Seq<char>)
    requires
        text.len() > 0,
    ensures
        ({
            let commands = Driver::Paste(driver).commands(text);
            let args = commands[1].args;
            let n = driver.modifiers@.len() as int;
            &&& commands.len() == 2
            &&& commands[0].program == "wl-copy"@
            &&& commands[0].args.len() == 0
            &&& commands[0].stdin == Some(text)
            &&& commands[0].spawn_error == "failed to run wl-copy"@
            &&& commands[0].exit_error == "wl-copy exited with "@
            &&& commands[1].program == "wtype"@
            &&& commands[1].stdin is None
            &&& commands[1].spawn_error == "failed to run wtype for paste"@
            &&& commands[1].exit_error == "wtype paste exited with "@
            &&& args.len() == 4 * n + 2
            &&& args[2 * n] == "-k"@
            &&& args[2 * n + 1] == driver.key@
            &&& forall|i: int|
                0 <= i < n ==> pair_at(args, 2 * i, "-M"@, (#[trigger] driver.modifiers@[i])@)
                    && pair_at(args, 4 * n - 2 * i, "-m"@, driver.modifiers@[i]@)
        }),
{
    let commands = Driver::Paste(driver).commands(text);
    let args = commands[1].args;
    let held = text::texts(driver.modifiers@);
    let n = held.len() as int;
    lemma_pressing(held);
    lemma_releasing(held);
    assert(args == pressing(held) + seq!["-k"@, driver.key@] + releasing(held));
    assert forall|i: int| 0 <= i < n implies pair_at(
        args,
        2 * i,
        "-M"@,
        (#[trigger] driver.modifiers@[i])@,
    ) && pair_at(args, 4 * n - 2 * i, "-m"@, driver.modifiers@[i]@) by {
        assert(held[i] == driver.modifiers@[i]@);
        assert(pair_at(pressing(held), 2 * i, "-M"@, held[i]));
        assert(pair_at(releasing(held), 2 * (n - 1 - i), "-m"@, held[i]));
        assert(args[2 * i] == pressing(held)[2 * i]);
        assert(args[2 * i + 1] == pressing(held)[2 * i + 1]);
        assert(args[4 * n - 2 * i] == releasing(held)[2 * (n - 1 - i)]);
        assert(args[4 * n - 2 * i + 1] == releasing(held)[2 * (n - 1 - i) + 1]);
    }
}

proof fn lemma_pressing(held: Seq<Seq<char>>)
    ensures
        pressing(held).len() == 2 * held.len(),
        forall|i: int|
            0 <= i < held.len() ==> pair_at(pressing(held), 2 * i, "-M"@, #[trigger] held[i]),
    decreases held.len(),
{
    if held.len() > 0 {
        let front = held.drop_last();
        lemma_pressing(front);
        assert forall|i: int| 0 <= i < held.len() implies pair_at(
            pressing(held),
            2 * i,
            "-M"@,
            #[trigger] held[i],
        ) by {
            if i < front.len() {
                assert(front[i] == held[i]);
                assert(pair_at(pressing(front), 2 * i, "-M"@, front[i]));
            }
        }
    }
}

proof fn lemma_releasing(held: Seq<Seq<char>>)
    ensures
        releasing(held).len() == 2 * held.len(),
        forall|i: int|
            0 <= i < held.len() ==> pair_at(
                releasing(held),
                2 * (held.len() - 1 - i),
                "-m"@,
                #[trigger] held[i],
            ),
    decreases held.len(),
{
    if held.len() > 0 {
        let front = held.drop_last();
        lemma_releasing(front);
        let rest = releasing(front);
        assert forall|i: int| 0 <= i < held.len() implies pair_at(
            releasing(held),
            2 * (held.len() - 1 - i),
            "-m"@,
            #[trigger] held[i],
        ) by {
            if i < front.len() {
                assert(front[i] == held[i]);
                assert(pair_at(rest, 2 * (front.len() - 1 - i), "-m"@, front[i]));
                assert(releasing(held)[2 * (held.len() - 1 - i)] == rest[2 * (front.len() - 1
                    - i)]);
                assert(releasing(held)[2 * (held.len() - 1 - i) + 1] == rest[2 * (front.len() - 1
                    - i) + 1]);
            }
        }
    }
}

/// A keystroke is cut at every separator and nowhere else: one more part, ending in the key, and
/// the parts of what stands before it are those of the keystroke without them.
pub proof fn law_keystroke_is_cut_at_each_separator(
    modifiers: Seq<char>,
    key: Seq<char>,
    separator: char,
)
    requires
        !key.contains(separator),
    ensures
        split_at_each(key, separator) == seq![key],
        split_at_each(modifiers.push(separator) + key, separator) == split_at_each(
            modifiers,
            separator,
        ).push(key),
    decreases key.len(),
{
    reveal_with_fuel(split_at_each, 2);
    let whole = modifiers.push(separator) + key;
    if key.len() == 0 {
        assert(key =~= Seq::<char>::empty());
        assert(split_at_each(key, separator) =~= seq![key]);
        assert(whole.drop_last() =~= modifiers);
    } else {
        let front = key.drop_last();
        assert(key[key.len() - 1] != separator);
        if front.contains(separator) {
            let i = choose|i: int| 0 <= i < front.len() && front[i] == separator;
            assert(key[i] == separator);
        }
        law_keystroke_is_cut_at_each_separator(modifiers, front, separator);
        assert(whole.drop_last() =~= modifiers.push(separator) + front);
        assert(front.push(key.last()) =~= key);
        assert(seq![front].drop_last() =~= Seq::<Seq<char>>::empty());
        assert(split_at_each(key, separator) =~= seq![key]);
        let parts = split_at_each(modifiers, separator);
        assert(parts.push(front).drop_last() =~= parts);
        assert(split_at_each(whole, separator) =~= parts.push(key));
    }
}

/// Each driver has the name that it is configured by, and needs the programs that it runs.
pub proof fn law_drivers_by_name(driver: Driver)
    ensures
        match driver {
            Driver::Wtype(_) => driver.name_text() == "wtype"@ && driver.needs() == seq!["wtype"@],
            Driver::Dotool(_) => driver.name_text() == "dotool"@ && driver.needs()
                == seq!["dotoolc"@],
            Driver::Clipboard(_) => driver.name_text() == "clipboard"@ && driver.needs()
                == seq!["wl-copy"@],
            Driver::Paste(_) => driver.name_text() == "paste"@ && driver.needs()
                == seq!["wl-copy"@, "wtype"@],
        },
{
}

} // verus!
