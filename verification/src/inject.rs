//! Delivering text to the focused window: what is made of the text first, and which driver gets it.

use crate::config::InjectionConfig;
use crate::drivers;
use crate::drivers::{
    ClipboardInjector, DotoolInjector, Driver, Invocation, PasteInjector, WtypeInjector,
};
use crate::text;
use crate::text::{chars_of, copy_texts, same_text};
use vstd::prelude::*;

verus! {

/// Why a text was not injected.
#[derive(Debug)]
pub enum InjectError {
    /// A driver failed, for the reason given.
    Driver(String),
    /// Every driver of a chain was unavailable or failed.
    AllMethodsFailed,
}

impl InjectError {
    /// The message of the error.
    pub open spec fn message_text(&self) -> Seq<char> {
        match self {
            InjectError::Driver(reason) => reason@,
            InjectError::AllMethodsFailed => "all injection methods failed"@,
        }
    }

    /// The message of the error.
    pub fn message(&self) -> (message: String)
        ensures
            message@ == self.message_text(),
    {
        match self {
            InjectError::Driver(reason) => reason.as_str().to_string(),
            InjectError::AllMethodsFailed => "all injection methods failed".to_string(),
        }
    }
}

/// A way to get text into the focused window.
pub trait TextInjector: Send + Sync {
    fn inject(&self, text: &str) -> (r: Result<(), InjectError>);

    fn is_available(&self) -> (r: bool);

    fn name(&self) -> (r: &'static str);
}

/// Tries multiple injectors in order, falling back on failure or unavailability.
pub struct InjectorChain<D> {
    pub drivers: Vec<D>,
}

/// Whether `driver` may have taken `text`: it said that it was available and reported success.
pub open spec fn took<D: TextInjector>(driver: &D, text: &str) -> bool {
    &&& call_ensures(D::is_available, (driver,), true)
    &&& exists|r: Result<(), InjectError>|
        r is Ok && #[trigger] call_ensures(D::inject, (driver, text), r)
}

/// Whether `driver` may have failed on `text`: it said that it was available and reported an error.
pub open spec fn failed<D: TextInjector>(driver: &D, text: &str) -> bool {
    &&& call_ensures(D::is_available, (driver,), true)
    &&& exists|r: Result<(), InjectError>|
        r is Err && #[trigger] call_ensures(D::inject, (driver, text), r)
}

/// Whether `driver` may have been passed over: it said that it was unavailable, or it failed.
pub open spec fn passed_over<D: TextInjector>(driver: &D, text: &str) -> bool {
    call_ensures(D::is_available, (driver,), false) || failed(driver, text)
}

/// Whether `r` is what injecting `text` by one of `drivers` gives: success where a driver took the
/// text, all before it having been passed over, and the error where all were passed over.
pub open spec fn fell_back<D: TextInjector>(
    drivers: Seq<D>,
    text: &str,
    r: Result<(), InjectError>,
) -> bool {
    match r {
        Ok(()) => exists|i: int|
            0 <= i < drivers.len() && #[trigger] took(&drivers[i], text) && forall|j: int|
                0 <= j < i ==> passed_over(&#[trigger] drivers[j], text),
        Err(e) => e is AllMethodsFailed && forall|j: int|
            0 <= j < drivers.len() ==> passed_over(&#[trigger] drivers[j], text),
    }
}

/// Whether `r` tells if one of `drivers` said that it was available.
pub open spec fn any_available<D: TextInjector>(drivers: Seq<D>, r: bool) -> bool {
    if r {
        exists|i: int|
            0 <= i < drivers.len() && call_ensures(
                D::is_available,
                (&#[trigger] drivers[i],),
                true,
            )
    } else {
        forall|i: int|
            0 <= i < drivers.len() ==> call_ensures(
                D::is_available,
                (&#[trigger] drivers[i],),
                false,
            )
    }
}

/// What a chain does next with its drivers.
#[derive(Debug, Clone, Copy, PartialEq, Eq, Structural)]
pub enum FallbackStep {
    /// Ask this driver whether it is available.
    AskAvailable(usize),
    /// Give the text to this driver.
    Inject(usize),
    /// Nothing more.
    Finished,
}

/// The walk of a chain along its drivers, which are told apart by their places in it.
#[derive(Debug)]
pub struct Fallback {
    pub count: usize,
    /// The driver that the walk has come to.
    pub at: usize,
    /// Whether that driver said that it is available.
    pub available: bool,
    /// Whether a driver took the text.
    pub delivered: bool,
}

impl Fallback {
    pub open spec fn well_formed(&self) -> bool {
        self.at <= self.count
    }

    /// The step that is due: one driver after the other is asked, and gets the text where it is
    /// available, up to the first that takes it.
    pub open spec fn due(&self) -> FallbackStep {
        if self.delivered || self.at >= self.count {
            FallbackStep::Finished
        } else if self.available {
            FallbackStep::Inject(self.at)
        } else {
            FallbackStep::AskAvailable(self.at)
        }
    }

    /// The walk after the step that was due, where `yes` tells whether the driver was available, or
    /// took the text.
    pub open spec fn after(&self, yes: bool) -> Fallback {
        match self.due() {
            FallbackStep::AskAvailable(_) if yes => Fallback { available: true, ..*self },
            FallbackStep::Inject(_) if yes => Fallback { delivered: true, ..*self },
            FallbackStep::Finished => *self,
            _ => Fallback { at: (self.at + 1) as usize, available: false, ..*self },
        }
    }

    /// How many steps are due at most.
    pub open spec fn steps_left(&self) -> int {
        if self.due() is Finished {
            0
        } else if self.available {
            2 * (self.count - self.at) - 1
        } else {
            2 * (self.count - self.at)
        }
    }

    /// Starts at the first of `count` drivers.
    pub fn new(count: usize) -> (walk: Self)
        ensures
            walk.well_formed(),
            walk == (Fallback { count, at: 0, available: false, delivered: false }),
    {
        Fallback { count, at: 0, available: false, delivered: false }
    }

    /// The step that is due.
    pub fn next(&self) -> (step: FallbackStep)
        ensures
            step == self.due(),
    {
        if self.delivered || self.at >= self.count {
            FallbackStep::Finished
        } else if self.available {
            FallbackStep::Inject(self.at)
        } else {
            FallbackStep::AskAvailable(self.at)
        }
    }

    /// Takes in how the step that was due went.
    pub fn report(&mut self, yes: bool)
        requires
            old(self).well_formed(),
        ensures
            final(self).well_formed(),
            *final(self) == old(self).after(yes),
    {
        if self.delivered || self.at >= self.count {
            return ;
        }
        if !yes {
            self.at = self.at + 1;
            self.available = false;
        } else if self.available {
            self.delivered = true;
        } else {
            self.available = true;
        }
    }
}

/// The places of the drivers that get the text on the rest of a walk, where `available` and `takes`
/// tell what each driver answers.
pub open spec fn injections(walk: Fallback, available: Seq<bool>, takes: Seq<bool>) -> Seq<int>
    decreases walk.steps_left(),
{
    match walk.due() {
        FallbackStep::AskAvailable(i) => injections(
            walk.after(available[i as int]),
            available,
            takes,
        ),
        FallbackStep::Inject(i) => seq![i as int] + injections(
            walk.after(takes[i as int]),
            available,
            takes,
        ),
        FallbackStep::Finished => Seq::empty(),
    }
}

/// The end of a walk.
pub open spec fn walked(walk: Fallback, available: Seq<bool>, takes: Seq<bool>) -> Fallback
    decreases walk.steps_left(),
{
    match walk.due() {
        FallbackStep::AskAvailable(i) => walked(
            walk.after(available[i as int]),
            available,
            takes,
        ),
        FallbackStep::Inject(i) => walked(walk.after(takes[i as int]), available, takes),
        FallbackStep::Finished => walk,
    }
}

/// Whether the driver at `i` is to get the text: it is available, and no driver from `from` on that
/// stands before it takes the text.
pub open spec fn gets_text(available: Seq<bool>, takes: Seq<bool>, from: int, i: int) -> bool {
    &&& from <= i < available.len()
    &&& available[i]
    &&& forall|j: int| from <= j < i ==> !(#[trigger] available[j] && takes[j])
}

proof fn lemma_walk(walk: Fallback, available: Seq<bool>, takes: Seq<bool>)
    requires
        walk.well_formed(),
        !walk.available,
        !walk.delivered,
        available.len() == walk.count,
        takes.len() == walk.count,
    ensures
        forall|k: int, l: int|
            0 <= k < l < injections(walk, available, takes).len() ==> #[trigger] injections(
                walk,
                available,
                takes,
            )[k] < #[trigger] injections(walk, available, takes)[l],
        forall|i: int|
            injections(walk, available, takes).contains(i) <==> #[trigger] gets_text(
                available,
                takes,
                walk.at as int,
                i,
            ),
        walked(walk, available, takes).delivered <==> exists|i: int|
            walk.at <= i < available.len() && #[trigger] available[i] && takes[i],
    decreases walk.count - walk.at,
{
    reveal_with_fuel(injections, 3);
    reveal_with_fuel(walked, 3);
    let all = injections(walk, available, takes);
    let at = walk.at as int;
    if at < walk.count {
        let next = Fallback { at: (at + 1) as usize, available: false, ..walk };
        if available[at] && takes[at] {
            assert(all =~= seq![at]);
            assert(all[0] == at);
            assert(walked(walk, available, takes).delivered);
        } else {
            lemma_walk(next, available, takes);
            let rest = injections(next, available, takes);
            if available[at] {
                assert(walk.after(true).after(false) == next);
                assert(all =~= seq![at] + rest);
                assert forall|k: int, l: int| 0 <= k < l < all.len() implies #[trigger] all[k]
                    < #[trigger] all[l] by {
                    assert(rest.contains(rest[l - 1]));
                    assert(gets_text(available, takes, at + 1, rest[l - 1]));
                    if k > 0 {
                        assert(rest[k - 1] < rest[l - 1]);
                    }
                }
            } else {
                assert(walk.after(false) == next);
                assert(all =~= rest);
            }
            assert forall|i: int|
                all.contains(i) <==> #[trigger] gets_text(available, takes, at, i) by {
                assert(rest.contains(i) <==> gets_text(available, takes, at + 1, i));
                if i == at && available[at] {
                    assert(all[0] == at);
                } else if rest.contains(i) {
                    let k = choose|k: int| 0 <= k < rest.len() && rest[k] == i;
                    assert(all[if available[at] { k + 1 } else { k }] == i);
                } else if all.contains(i) {
                    let k = choose|k: int| 0 <= k < all.len() && all[k] == i;
                    assert(available[at] && k > 0 ==> rest[k - 1] == i);
                    assert(!available[at] ==> rest[k] == i);
                }
            }
            if exists|i: int| at <= i < available.len() && #[trigger] available[i] && takes[i] {
                let i = choose|i: int|
                    at <= i < available.len() && #[trigger] available[i] && takes[i];
                assert(at + 1 <= i);
            }
        }
    } else {
        assert(all =~= Seq::<int>::empty());
    }
}

/// Along a chain the text is given, in order and once each, to the available drivers up to and
/// including the first that takes it, and to no other. It is delivered exactly where an available
/// driver takes it.
pub proof fn law_chain_asks_each_driver_once(
    count: usize,
    available: Seq<bool>,
    takes: Seq<bool>,
)
    requires
        available.len() == count,
        takes.len() == count,
    ensures
        ({
            let start = Fallback { count, at: 0, available: false, delivered: false };
            let asked = injections(start, available, takes);
            &&& forall|k: int, l: int|
                0 <= k < l < asked.len() ==> #[trigger] asked[k] < #[trigger] asked[l]
            &&& forall|i: int|
                asked.contains(i) <==> #[trigger] gets_text(available, takes, 0, i)
            &&& walked(start, available, takes).delivered <==> exists|i: int|
                0 <= i < count && #[trigger] available[i] && takes[i]
        }),
{
    lemma_walk(
        Fallback { count, at: 0, available: false, delivered: false },
        available,
        takes,
    );
}

impl<D> InjectorChain<D> {
    pub fn new(drivers: Vec<D>) -> (chain: Self)
        ensures
            chain.drivers@ == drivers@,
    {
        InjectorChain { drivers }
    }
}

impl<D: TextInjector> TextInjector for InjectorChain<D> {
    /// Succeeds where a driver took the text, all before it having been passed over; fails where
    /// all were passed over.
    ///
    /// Which driver is asked next, and when the walk ends, is up to [`Fallback`].
    fn inject(&self, text: &str) -> (r: Result<(), InjectError>)
        ensures
            fell_back(self.drivers@, text, r),
    {
        let mut walk = Fallback::new(self.drivers.len());
        loop
            invariant
                walk.well_formed(),
                walk.count == self.drivers@.len(),
                forall|j: int| 0 <= j < walk.at ==> passed_over(&#[trigger] self.drivers@[j], text),
                walk.available && walk.at < walk.count ==> call_ensures(
                    D::is_available,
                    (&self.drivers@[walk.at as int],),
                    true,
                ),
                walk.delivered ==> walk.at < walk.count && took(
                    &self.drivers@[walk.at as int],
                    text,
                ),
            decreases walk.steps_left(),
        {
            match walk.next() {
                FallbackStep::AskAvailable(i) => {
                    let yes = self.drivers[i].is_available();
                    walk.report(yes);
                },
                FallbackStep::Inject(i) => {
                    let r = self.drivers[i].inject(text);
                    assert(call_ensures(D::inject, (&self.drivers@[i as int], text), r));
                    walk.report(r.is_ok());
                },
                FallbackStep::Finished => {
                    return if walk.delivered {
                        Ok(())
                    } else {
                        Err(InjectError::AllMethodsFailed)
                    };
                },
            }
        }
    }

    /// Whether any driver is available.
    fn is_available(&self) -> (r: bool)
        ensures
            any_available(self.drivers@, r),
    {
        let mut i: usize = 0;
        while i < self.drivers.len()
            invariant
                i <= self.drivers@.len(),
                forall|j: int|
                    0 <= j < i ==> call_ensures(
                        D::is_available,
                        (&#[trigger] self.drivers@[j],),
                        false,
                    ),
            decreases self.drivers@.len() - i,
        {
            if self.drivers[i].is_available() {
                return true;
            }
            i = i + 1;
        }
        false
    }

    fn name(&self) -> (r: &'static str)
        ensures
            r@ == "chain"@,
    {
        "chain"
    }
}

/// The characters that end a line and that a terminal or a form may take for the Enter key.
pub open spec fn line_terminator(c: char) -> bool {
    c == '\n' || c == '\r' || c == '\x0B' || c == '\x0C' || c == '\u{0085}' || c == '\u{2028}' || c
        == '\u{2029}'
}

/// `s` with a space in place of each line terminator.
pub open spec fn sanitized(s: Seq<char>) -> Seq<char> {
    s.map_values(
        |c: char|
            if line_terminator(c) {
                ' '
            } else {
                c
            },
    )
}

/// Replaces line-terminating characters with spaces, to prevent unintended Enter keypresses that
/// can submit forms mid-sentence.
pub fn sanitize_for_injection(text: &str) -> (r: String)
    ensures
        r@ == sanitized(text@),
{
    let chars = chars_of(text);
    let mut result = String::new();
    let mut i: usize = 0;
    while i < chars.len()
        invariant
            i <= chars@.len(),
            result@ == sanitized(chars@.take(i as int)),
        decreases chars@.len() - i,
    {
        proof {
            assert(chars@.take(i + 1).drop_last() =~= chars@.take(i as int));
        }
        match chars[i] {
            '\n' | '\r' | '\x0B' | '\x0C' | '\u{0085}' | '\u{2028}' | '\u{2029}' => result.push(' '),
            c => result.push(c),
        }
        proof {
            assert(result@ =~= sanitized(chars@.take(i + 1)));
        }
        i = i + 1;
    }
    proof {
        assert(chars@.take(i as int) =~= chars@);
    }
    result
}

/// No line terminator is ever injected, and no other character is touched or moved.
pub proof fn law_sanitizing_removes_line_terminators(s: Seq<char>)
    ensures
        sanitized(s).len() == s.len(),
        forall|i: int|
            0 <= i < s.len() ==> !line_terminator(#[trigger] sanitized(s)[i]) && (line_terminator(s[i])
                || sanitized(s)[i] == s[i]),
{
}

/// Sanitizing twice is sanitizing once.
pub proof fn law_sanitizing_is_idempotent(s: Seq<char>)
    ensures
        sanitized(sanitized(s)) == sanitized(s),
{
    assert(sanitized(sanitized(s)) =~= sanitized(s));
}

/// The string that is the member `key` of the JSON object that `json` holds, as serde_json reads
/// it; none where `json` is no JSON, no object, or has no string there.
pub uninterp spec fn json_string_member(json: Seq<u8>, key: Seq<char>) -> Option<Seq<char>>;

/// `serde_json::from_slice` into a `serde_json::Value`, then `Value::get` and `Value::as_str`. The
/// outcome depends on the bytes and the key alone, and none of the calls panics.
#[verifier::external_body]
fn find_string_member(json: &[u8], key: &str) -> (r: Option<String>)
    ensures
        match r {
            Some(member) => json_string_member(json@, key@) == Some(member@),
            None => json_string_member(json@, key@) is None,
        },
{
    let value: serde_json::Value = serde_json::from_slice(json).ok()?;
    value.get(key)?.as_str().map(String::from)
}

/// Picks between two chains by the window that has the focus: one for terminals, and one for
/// everything else.
pub struct NiriAwareInjector<D> {
    pub default_chain: InjectorChain<D>,
    pub terminal_chain: InjectorChain<D>,
    pub terminal_app_ids: Vec<String>,
}

/// The application that the compositor's answer names, if it gave one.
pub open spec fn focused_app(focused_window: Option<Seq<u8>>) -> Option<Seq<char>> {
    match focused_window {
        Some(json) => json_string_member(json, "app_id"@),
        None => None,
    }
}

/// Whether `app_id` is one of `terminals`.
pub open spec fn terminal_app(terminals: Seq<Seq<char>>, app_id: Option<Seq<char>>) -> bool {
    match app_id {
        Some(id) => terminals.contains(id),
        None => false,
    }
}

/// What a slice of bytes holds, if there is one.
pub open spec fn bytes_of(bytes: Option<&[u8]>) -> Option<Seq<u8>> {
    match bytes {
        Some(b) => Some(b@),
        None => None,
    }
}

impl<D> NiriAwareInjector<D> {
    pub fn new(
        default_chain: InjectorChain<D>,
        terminal_chain: InjectorChain<D>,
        terminal_app_ids: Vec<String>,
    ) -> (injector: Self)
        ensures
            injector.default_chain == default_chain,
            injector.terminal_chain == terminal_chain,
            injector.terminal_app_ids == terminal_app_ids,
    {
        NiriAwareInjector { default_chain, terminal_chain, terminal_app_ids }
    }

    /// Whether `app_id` is that of a terminal.
    pub fn is_terminal(&self, app_id: &str) -> (r: bool)
        ensures
            r == text::texts(self.terminal_app_ids@).contains(app_id@),
    {
        let ghost ids = text::texts(self.terminal_app_ids@);
        let mut i: usize = 0;
        while i < self.terminal_app_ids.len()
            invariant
                i <= self.terminal_app_ids@.len(),
                ids == text::texts(self.terminal_app_ids@),
                forall|j: int| 0 <= j < i ==> #[trigger] ids[j] != app_id@,
            decreases self.terminal_app_ids@.len() - i,
        {
            if same_text(self.terminal_app_ids[i].as_str(), app_id) {
                assert(ids[i as int] == app_id@);
                return true;
            }
            i = i + 1;
        }
        false
    }

    /// Whether a terminal has the focus, by what the compositor printed of the focused window. No
    /// answer counts as no terminal.
    pub fn is_terminal_focused(&self, focused_window: Option<&[u8]>) -> (r: bool)
        ensures
            r == terminal_app(
                text::texts(self.terminal_app_ids@),
                focused_app(bytes_of(focused_window)),
            ),
    {
        match focused_window {
            Some(json) => match find_string_member(json, "app_id") {
                Some(app_id) => self.is_terminal(app_id.as_str()),
                None => false,
            },
            None => false,
        }
    }

    pub fn name(&self) -> (name: &'static str)
        ensures
            name@ == "niri-aware"@,
    {
        "niri-aware"
    }
}

impl<D> NiriAwareInjector<D> {
    /// The chain that a text goes to, and no other: the one for terminals where a terminal has the
    /// focus, else the default one.
    pub fn chain_for(&self, focused_window: Option<&[u8]>) -> (chain: &InjectorChain<D>)
        ensures
            *chain == (if terminal_app(
                text::texts(self.terminal_app_ids@),
                focused_app(bytes_of(focused_window)),
            ) {
                self.terminal_chain
            } else {
                self.default_chain
            }),
    {
        if self.is_terminal_focused(focused_window) {
            &self.terminal_chain
        } else {
            &self.default_chain
        }
    }
}

impl<D: TextInjector> NiriAwareInjector<D> {
    /// Injects `text` by the terminal chain where a terminal has the focus, else by the default
    /// chain.
    pub fn inject(&self, focused_window: Option<&[u8]>, text: &str) -> (r: Result<
        (),
        InjectError,
    >)
        ensures
            if terminal_app(
                text::texts(self.terminal_app_ids@),
                focused_app(bytes_of(focused_window)),
            ) {
                fell_back(self.terminal_chain.drivers@, text, r)
            } else {
                fell_back(self.default_chain.drivers@, text, r)
            },
    {
        self.chain_for(focused_window).inject(text)
    }

    /// Whether a driver of either chain is available.
    pub fn is_available(&self) -> (r: bool)
        ensures
            if r {
                any_available(self.default_chain.drivers@, true) || any_available(
                    self.terminal_chain.drivers@,
                    true,
                )
            } else {
                any_available(self.default_chain.drivers@, false) && any_available(
                    self.terminal_chain.drivers@,
                    false,
                )
            },
    {
        self.default_chain.is_available() || self.terminal_chain.is_available()
    }
}

/// The names of the drivers that there are.
pub open spec fn known_driver(name: Seq<char>) -> bool {
    name == "wtype"@ || name == "dotool"@ || name == "clipboard"@ || name == "paste"@
}

/// Those of `names` that name a driver, in order.
pub open spec fn known_drivers(names: Seq<Seq<char>>) -> Seq<Seq<char>>
    decreases names.len(),
{
    if names.len() == 0 {
        Seq::empty()
    } else if known_driver(names.last()) {
        known_drivers(names.drop_last()).push(names.last())
    } else {
        known_drivers(names.drop_last())
    }
}

/// Whether `driver` is the one called `name`, with `paste_keys` for its paste key.
pub open spec fn made_as(driver: Driver, name: Seq<char>, paste_keys: Seq<char>) -> bool {
    &&& driver.name_text() == name
    &&& driver matches Driver::Paste(paste) ==> text::texts(paste.modifiers@).push(paste.key@)
        == drivers::split_at_each(paste_keys, '+')
}

/// Whether `chain` holds a driver for each of `names` that is known, in that order.
pub open spec fn chain_of(
    chain: InjectorChain<Driver>,
    names: Seq<Seq<char>>,
    paste_keys: Seq<char>,
) -> bool {
    &&& chain.drivers@.len() == known_drivers(names).len()
    &&& forall|i: int|
        0 <= i < chain.drivers@.len() ==> made_as(
            #[trigger] chain.drivers@[i],
            known_drivers(names)[i],
            paste_keys,
        )
}

/// Builds a single driver from its name. There is none for an unknown name.
pub fn make_driver(name: &str, paste_keys: &str) -> (r: Option<Driver>)
    ensures
        match r {
            Some(driver) => made_as(driver, name@, paste_keys@),
            None => !known_driver(name@),
        },
{
    if same_text(name, "wtype") {
        Some(Driver::Wtype(WtypeInjector))
    } else if same_text(name, "dotool") {
        Some(Driver::Dotool(DotoolInjector))
    } else if same_text(name, "clipboard") {
        Some(Driver::Clipboard(ClipboardInjector))
    } else if same_text(name, "paste") {
        Some(Driver::Paste(PasteInjector::new(paste_keys)))
    } else {
        None
    }
}

/// Builds a chain from a list of driver names, leaving out those that are unknown.
pub fn build_chain(driver_names: &[String], paste_keys: &str) -> (chain: InjectorChain<Driver>)
    ensures
        chain_of(chain, text::texts(driver_names@), paste_keys@),
{
    let ghost names = text::texts(driver_names@);
    let mut chain: InjectorChain<Driver> = InjectorChain::new(Vec::new());
    let mut i: usize = 0;
    while i < driver_names.len()
        invariant
            i <= driver_names@.len(),
            names == text::texts(driver_names@),
            chain_of(chain, names.take(i as int), paste_keys@),
        decreases driver_names@.len() - i,
    {
        proof {
            assert(names.take(i + 1).drop_last() =~= names.take(i as int));
        }
        match make_driver(driver_names[i].as_str(), paste_keys) {
            Some(driver) => {
                chain.drivers.push(driver);
            },
            None => {},
        }
        i = i + 1;
    }
    proof {
        assert(names.take(i as int) =~= names);
    }
    chain
}

/// The injector that a configuration asks for.
pub enum Injector<D> {
    /// The configured chain alone.
    Chain(InjectorChain<D>),
    /// The configured chain, with a chain for terminals beside it.
    NiriAware(NiriAwareInjector<D>),
}

/// The drivers for terminals: paste, and the clipboard where that fails.
pub open spec fn terminal_drivers() -> Seq<Seq<char>> {
    seq!["paste"@, "clipboard"@]
}

/// Creates the injector that `config` asks for. With the detection of the focused window switched
/// on there is a chain for terminals beside the configured one.
pub fn create_injector(config: &InjectionConfig) -> (injector: Injector<Driver>)
    ensures
        match injector {
            Injector::Chain(chain) => !config.niri_detect && chain_of(
                chain,
                text::texts(config.driver_order@),
                config.paste_keys@,
            ),
            Injector::NiriAware(aware) => config.niri_detect && chain_of(
                aware.default_chain,
                text::texts(config.driver_order@),
                config.paste_keys@,
            ) && chain_of(aware.terminal_chain, terminal_drivers(), config.paste_keys@)
                && text::texts(aware.terminal_app_ids@) == text::texts(config.terminal_app_ids@),
        },
{
    let default_chain = build_chain(config.driver_order.as_slice(), config.paste_keys.as_str());
    if config.niri_detect {
        let names = vec!["paste".to_string(), "clipboard".to_string()];
        proof {
            assert(text::texts(names@) =~= terminal_drivers());
        }
        let terminal_chain = build_chain(names.as_slice(), config.paste_keys.as_str());
        Injector::NiriAware(
            NiriAwareInjector::new(
                default_chain,
                terminal_chain,
                copy_texts(&config.terminal_app_ids),
            ),
        )
    } else {
        Injector::Chain(default_chain)
    }
}

/// How a command went.
#[derive(Debug)]
pub enum CommandOutcome {
    /// It could not be started.
    NotStarted,
    /// Its input could not be written or its end not awaited, for the reason given.
    Broken(String),
    /// It ended, with success or not, and with this exit status.
    Ended { success: bool, status: String },
}

/// The error that `outcome` of `command` stands for; none where it is a success.
pub open spec fn command_error(command: drivers::Run, outcome: CommandOutcome) -> Option<
    Seq<char>,
> {
    match outcome {
        CommandOutcome::NotStarted => Some(command.spawn_error),
        CommandOutcome::Broken(reason) => Some(reason@),
        CommandOutcome::Ended { success, status } => if success {
            None
        } else {
            Some(command.exit_error + status@)
        },
    }
}

/// Tells from `outcome` whether `command` succeeded.
pub fn command_result(command: &Invocation, outcome: CommandOutcome) -> (r: Result<
    (),
    InjectError,
>)
    ensures
        match r {
            Ok(()) => command_error(command@, outcome) is None,
            Err(e) => e is Driver && command_error(command@, outcome) == Some(e.message_text()),
        },
{
    match outcome {
        CommandOutcome::NotStarted => Err(
            InjectError::Driver(command.spawn_error.as_str().to_string()),
        ),
        CommandOutcome::Broken(reason) => Err(InjectError::Driver(reason)),
        CommandOutcome::Ended { success, status } => {
            if success {
                Ok(())
            } else {
                let mut message = command.exit_error.as_str().to_string();
                message.append(status.as_str());
                Err(InjectError::Driver(message))
            }
        },
    }
}

/// The running of a driver's commands, one after the other, as long as they succeed.
#[derive(Debug)]
pub struct Delivery {
    pub plan: Vec<Invocation>,
    /// How many commands are through.
    pub at: usize,
}

impl Delivery {
    /// The commands that are still to be run.
    pub open spec fn remaining(&self) -> Seq<drivers::Run> {
        drivers::runs(self.plan@).skip(self.at as int)
    }

    pub open spec fn well_formed(&self) -> bool {
        self.at <= self.plan@.len()
    }

    /// Starts to inject `text` by `driver`.
    pub fn new(driver: &Driver, text: &str) -> (delivery: Self)
        ensures
            delivery.well_formed(),
            delivery.remaining() == driver.commands(text@),
    {
        let delivery = Delivery { plan: driver.plan(text), at: 0 };
        proof {
            assert(delivery.remaining() =~= driver.commands(text@));
        }
        delivery
    }

    /// The command to run next, if any is left.
    pub fn next(&self) -> (r: Option<&Invocation>)
        requires
            self.well_formed(),
        ensures
            match r {
                Some(command) => self.remaining().len() > 0 && command@ == self.remaining().first(),
                None => self.remaining().len() == 0,
            },
    {
        if self.at < self.plan.len() {
            Some(&self.plan[self.at])
        } else {
            None
        }
    }

    /// Takes in how the next command went. After a failure no other is run.
    pub fn report(&mut self, outcome: CommandOutcome) -> (r: Result<(), InjectError>)
        requires
            old(self).well_formed(),
            old(self).remaining().len() > 0,
        ensures
            final(self).well_formed(),
            match command_error(old(self).remaining().first(), outcome) {
                None => r is Ok && final(self).remaining() == old(self).remaining().skip(1),
                Some(message) => r is Err && r->Err_0.message_text() == message
                    && final(self).remaining().len() == 0,
            },
    {
        let count: usize = self.plan.len();
        let r = command_result(&self.plan[self.at], outcome);
        match r {
            Ok(()) => {
                self.at = self.at + 1;
            },
            Err(_) => {
                self.at = count;
            },
        }
        proof {
            if r is Ok {
                assert(self.remaining() =~= old(self).remaining().skip(1));
            }
        }
        r
    }
}

/// The result of running `commands` with these outcomes, one for each command that is run: the
/// error of the first that failed, if any did.
pub open spec fn delivery_error(
    commands: Seq<drivers::Run>,
    outcomes: Seq<CommandOutcome>,
) -> Option<Seq<char>>
    decreases commands.len(),
{
    if commands.len() == 0 || outcomes.len() == 0 {
        None
    } else {
        match command_error(commands.first(), outcomes.first()) {
            Some(message) => Some(message),
            None => delivery_error(commands.skip(1), outcomes.skip(1)),
        }
    }
}

/// A text is delivered exactly where every command that was run for it succeeded.
pub proof fn law_delivery_succeeds_where_all_commands_do(
    commands: Seq<drivers::Run>,
    outcomes: Seq<CommandOutcome>,
)
    ensures
        delivery_error(commands, outcomes) is None <==> forall|i: int|
            0 <= i < commands.len() && i < outcomes.len() ==> command_error(
                #[trigger] commands[i],
                outcomes[i],
            ) is None,
    decreases commands.len(),
{
    if commands.len() > 0 && outcomes.len() > 0 {
        let (later, rest) = (commands.skip(1), outcomes.skip(1));
        law_delivery_succeeds_where_all_commands_do(later, rest);
        let all = forall|i: int|
            0 <= i < commands.len() && i < outcomes.len() ==> command_error(
                #[trigger] commands[i],
                outcomes[i],
            ) is None;
        if delivery_error(commands, outcomes) is None {
            assert forall|i: int| 0 <= i < commands.len() && i < outcomes.len() implies command_error(
                #[trigger] commands[i],
                outcomes[i],
            ) is None by {
                if i > 0 {
                    assert(later[i - 1] == commands[i]);
                }
            }
        } else if all {
            assert(command_error(commands[0], outcomes[0]) is None);
            assert forall|i: int| 0 <= i < later.len() && i < rest.len() implies command_error(
                #[trigger] later[i],
                rest[i],
            ) is None by {
                assert(later[i] == commands[i + 1]);
            }
        }
    }
}

/// The paste key is pressed only after the text was copied: where copying fails, that is the error,
/// whatever the key press would have come to.
pub proof fn law_paste_needs_the_copy(
    paste: PasteInjector,
    text: Seq<char>,
    outcomes: Seq<CommandOutcome>,
)
    requires
        text.len() > 0,
        outcomes.len() > 0,
        command_error(drivers::copy_run(text), outcomes[0]) is Some,
    ensures
        delivery_error(Driver::Paste(paste).commands(text), outcomes) == command_error(
            drivers::copy_run(text),
            outcomes[0],
        ),
{
}

/// The terminal chain holds the paste driver and then the clipboard driver.
pub proof fn law_terminals_get_paste_then_clipboard(chain: InjectorChain<Driver>, keys: Seq<char>)
    requires
        chain_of(chain, terminal_drivers(), keys),
    ensures
        chain.drivers@.len() == 2,
        chain.drivers@[0] is Paste,
        chain.drivers@[1] is Clipboard,
{
    reveal_with_fuel(known_drivers, 3);
    let names = terminal_drivers();
    assert(names.drop_last() =~= seq!["paste"@]);
    assert(names.drop_last().drop_last() =~= Seq::<Seq<char>>::empty());
    assert(known_drivers(names) =~= names);
    reveal_strlit("wtype");
    reveal_strlit("dotool");
    reveal_strlit("clipboard");
    reveal_strlit("paste");
    assert("wtype"@[0] != "paste"@[0]);
    assert("dotool"@[0] != "paste"@[0]);
    assert("clipboard"@[0] != "paste"@[0]);
    assert("wtype"@[0] != "clipboard"@[0]);
    assert("dotool"@[0] != "clipboard"@[0]);
    assert(made_as(chain.drivers@[0], names[0], keys));
    assert(made_as(chain.drivers@[1], names[1], keys));
}

/// Exactly seven characters give way to a space, and every other is kept where it stands.
pub proof fn law_exactly_line_terminators_give_way(s: Seq<char>, i: int)
    requires
        0 <= i < s.len(),
    ensures
        sanitized(s).len() == s.len(),
        sanitized(s)[i] == (if s[i] == '\n' || s[i] == '\r' || s[i] == '\x0B' || s[i] == '\x0C' || s[i]
            == '\u{85}' || s[i] == '\u{2028}' || s[i] == '\u{2029}' {
            ' '
        } else {
            s[i]
        }),
{
}

/// What the result of a chain tells of its drivers: success, that one was available and took the
/// text and that each before it was unavailable or available and failing; failure, that each was.
pub proof fn law_chain_result_tells_of_its_drivers<D: TextInjector>(
    drivers: Seq<D>,
    text: &str,
    r: Result<(), InjectError>,
)
    requires
        fell_back(drivers, text, r),
    ensures
        r is Ok ==> exists|i: int|
            0 <= i < drivers.len() && #[trigger] passed_up_to(drivers, text, i) && call_ensures(
                D::is_available,
                (&drivers[i],),
                true,
            ) && exists|a: Result<(), InjectError>|
                a is Ok && #[trigger] call_ensures(D::inject, (&drivers[i], text), a),
        r is Err ==> r->Err_0 is AllMethodsFailed && passed_up_to(
            drivers,
            text,
            drivers.len() as int,
        ),
{
    if r is Ok {
        let i = choose|i: int|
            0 <= i < drivers.len() && #[trigger] took(&drivers[i], text) && forall|j: int|
                0 <= j < i ==> passed_over(&#[trigger] drivers[j], text);
        assert forall|j: int| 0 <= j < i implies no_use(&#[trigger] drivers[j], text) by {
            assert(passed_over(&drivers[j], text));
        }
        assert(passed_up_to(drivers, text, i));
    } else {
        assert forall|j: int| 0 <= j < drivers.len() implies no_use(
            &#[trigger] drivers[j],
            text,
        ) by {
            assert(passed_over(&drivers[j], text));
        }
    }
}

/// Whether `driver` may have answered that it is unavailable, or that it is available, and then an
/// error on `text`.
pub open spec fn no_use<D: TextInjector>(driver: &D, text: &str) -> bool {
    ||| call_ensures(D::is_available, (driver,), false)
    ||| call_ensures(D::is_available, (driver,), true) && exists|a: Result<(), InjectError>|
        a is Err && #[trigger] call_ensures(D::inject, (driver, text), a)
}

/// Whether each of the first `n` drivers was of no use for `text`.
pub open spec fn passed_up_to<D: TextInjector>(drivers: Seq<D>, text: &str, n: int) -> bool {
    forall|j: int| 0 <= j < n ==> no_use(&#[trigger] drivers[j], text)
}

/// A chain is available exactly where one of its drivers answers that it is.
pub proof fn law_chain_is_available_with_any_driver<D: TextInjector>(drivers: Seq<D>, r: bool)
    requires
        any_available(drivers, r),
    ensures
        r ==> exists|i: int|
            0 <= i < drivers.len() && call_ensures(
                D::is_available,
                (&#[trigger] drivers[i],),
                true,
            ),
        !r ==> forall|i: int|
            0 <= i < drivers.len() ==> call_ensures(
                D::is_available,
                (&#[trigger] drivers[i],),
                false,
            ),
{
}

/// A terminal has the focus exactly where the compositor answers, its answer names an application,
/// and that is, letter for letter, one of the terminals.
pub proof fn law_terminals_are_named_letter_for_letter(
    terminals: Seq<Seq<char>>,
    focused_window: Option<Seq<u8>>,
)
    ensures
        terminal_app(terminals, focused_app(focused_window)) <==> focused_window is Some
            && json_string_member(focused_window->0, "app_id"@) is Some && exists|i: int|
            0 <= i < terminals.len() && #[trigger] terminals[i] == json_string_member(
                focused_window->0,
                "app_id"@,
            )->0,
{
    if let Some(json) = focused_window {
        if let Some(id) = json_string_member(json, "app_id"@) {
            if terminals.contains(id) {
                let i = choose|i: int| 0 <= i < terminals.len() && terminals[i] == id;
                assert(terminals[i] == id);
            }
        }
    }
}

/// One more name adds a driver to a chain exactly where it is one of the four that there are, and
/// changes nothing else.
pub proof fn law_one_more_name_adds_its_driver(names: Seq<Seq<char>>, name: Seq<char>)
    ensures
        known_drivers(Seq::empty()) == Seq::<Seq<char>>::empty(),
        known_drivers(names.push(name)) == if name == "wtype"@ || name == "dotool"@ || name
            == "clipboard"@ || name == "paste"@ {
            known_drivers(names).push(name)
        } else {
            known_drivers(names)
        },
{
    assert(names.push(name).drop_last() =~= names);
}

/// A driver that is made for a name is the one with that name, and a paste driver has the keystroke
/// that it is made with: its parts, joined again, are that keystroke.
pub proof fn law_made_drivers_are_those_named(driver: Driver, name: Seq<char>, keys: Seq<char>)
    requires
        made_as(driver, name, keys),
    ensures
        name == "wtype"@ <==> driver is Wtype,
        name == "dotool"@ <==> driver is Dotool,
        name == "clipboard"@ <==> driver is Clipboard,
        name == "paste"@ <==> driver is Paste,
        driver matches Driver::Paste(paste) ==> drivers::joined(
            text::texts(paste.modifiers@).push(paste.key@),
            '+',
        ) == keys && !paste.key@.contains('+') && forall|i: int|
            0 <= i < paste.modifiers@.len() ==> !(#[trigger] paste.modifiers@[i])@.contains('+'),
{
    reveal_strlit("wtype");
    reveal_strlit("dotool");
    reveal_strlit("clipboard");
    reveal_strlit("paste");
    assert("wtype"@[0] == 'w' && "dotool"@[0] == 'd' && "clipboard"@[0] == 'c' && "paste"@[0] == 'p');
    if let Driver::Paste(paste) = driver {
        let parts = drivers::split_at_each(keys, '+');
        drivers::law_keystroke_parts_make_up_the_keystroke(keys, '+');
        let held = text::texts(paste.modifiers@);
        assert(parts[held.len() as int] == paste.key@);
        assert forall|i: int| 0 <= i < paste.modifiers@.len() implies !(
        #[trigger] paste.modifiers@[i])@.contains('+') by {
            assert(parts[i] == held[i]);
        }
    }
}

/// What goes wrong with a command is told by its own words: that it cannot be run, the reason that
/// was given, or that it ended and with which status. Only an end with success is no error.
pub proof fn law_command_errors_say_what_went_wrong(command: drivers::Run, reason: String)
    ensures
        command_error(command, CommandOutcome::NotStarted) == Some(command.spawn_error),
        command_error(command, CommandOutcome::Broken(reason)) == Some(reason@),
        command_error(command, CommandOutcome::Ended { success: false, status: reason }) == Some(
            command.exit_error + reason@,
        ),
        command_error(command, CommandOutcome::Ended { success: true, status: reason }) is None,
{
}

} // verus!
