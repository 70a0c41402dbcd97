//! Showing the login page in a browser.

use std::str::FromStr;
use vstd::prelude::*;
use crate::error::{view_error, Error, ErrorView, Result};
use crate::openvpn::parser::{LoginUrl, LoginUrlView};
use crate::platform::{CommandSpec, CommandSpecView, Platform};
use crate::text::{chars, lowercase, string, to_lowercase};

verus! {

/// The browsers that can be asked for by name.
#[derive(Clone, Copy, Debug, PartialEq, Eq, Structural)]
pub enum Browser {
    Default,
    Firefox,
    InternetExplorer,
    Chrome,
    Opera,
    Safari,
    WebPositive,
}

/// How the login page is shown.
#[derive(Clone, Copy, Debug, PartialEq, Eq, Structural)]
pub enum BrowserMode {
    /// In the browser that the operating system chooses.
    System,
    /// In a given browser.
    Specific(Browser),
    /// Not at all.
    Disabled,
}

/// Whether the login page was shown.
#[derive(Clone, Copy, Debug, PartialEq, Eq, Structural)]
pub enum BrowserOpenResult {
    Opened,
    Disabled,
}

/// The browser with a given name in small letters.
pub open spec fn browser_named(name: Seq<char>) -> Option<Browser> {
    if name == "firefox"@ {
        Some(Browser::Firefox)
    } else if name == "default"@ {
        Some(Browser::Default)
    } else if name == "ie"@ || name == "internet explorer"@ || name == "internetexplorer"@ {
        Some(Browser::InternetExplorer)
    } else if name == "chrome"@ {
        Some(Browser::Chrome)
    } else if name == "opera"@ {
        Some(Browser::Opera)
    } else if name == "safari"@ {
        Some(Browser::Safari)
    } else if name == "webpositive"@ {
        Some(Browser::WebPositive)
    } else {
        None
    }
}

/// The name of a browser.
pub open spec fn display_name(browser: Browser) -> Seq<char> {
    match browser {
        Browser::Default => "Default"@,
        Browser::Firefox => "Firefox"@,
        Browser::InternetExplorer => "Internet Explorer"@,
        Browser::Chrome => "Chrome"@,
        Browser::Opera => "Opera"@,
        Browser::Safari => "Safari"@,
        Browser::WebPositive => "WebPositive"@,
    }
}

/// Calls `webbrowser::Browser::from_str`, which knows each browser by a name
/// in small letters, and Internet Explorer by three.
#[verifier::external_body]
fn find_browser(name: &str) -> (r: Option<Browser>)
    ensures
        r == browser_named(name@),
{
    match webbrowser::Browser::from_str(name) {
        Ok(webbrowser::Browser::Default) => Some(Browser::Default),
        Ok(webbrowser::Browser::Firefox) => Some(Browser::Firefox),
        Ok(webbrowser::Browser::InternetExplorer) => Some(Browser::InternetExplorer),
        Ok(webbrowser::Browser::Chrome) => Some(Browser::Chrome),
        Ok(webbrowser::Browser::Opera) => Some(Browser::Opera),
        Ok(webbrowser::Browser::Safari) => Some(Browser::Safari),
        Ok(webbrowser::Browser::WebPositive) => Some(Browser::WebPositive),
        Err(_) => None,
    }
}

/// Calls `to_string` on a `webbrowser::Browser`, which writes the name of the
/// browser with capital letters.
#[verifier::external_body]
fn name_of_browser(browser: Browser) -> (r: String)
    ensures
        r@ == display_name(browser),
{
    match browser {
        Browser::Default => webbrowser::Browser::Default.to_string(),
        Browser::Firefox => webbrowser::Browser::Firefox.to_string(),
        Browser::InternetExplorer => webbrowser::Browser::InternetExplorer.to_string(),
        Browser::Chrome => webbrowser::Browser::Chrome.to_string(),
        Browser::Opera => webbrowser::Browser::Opera.to_string(),
        Browser::Safari => webbrowser::Browser::Safari.to_string(),
        Browser::WebPositive => webbrowser::Browser::WebPositive.to_string(),
    }
}

/// The browser that an argument asks for.
pub open spec fn browser_argument(value: Seq<char>) -> std::result::Result<Browser, Seq<char>> {
    match browser_named(lowercase(value)) {
        Some(browser) => Ok(browser),
        None => Err("expected one of: default, chrome, firefox, safari, opera"@),
    }
}

/// Reads the argument that asks for a browser.
pub fn parse_browser(value: &str) -> (r: std::result::Result<Browser, String>)
    ensures
        match r {
            Ok(browser) => browser_argument(value@) == Ok::<Browser, Seq<char>>(browser),
            Err(cause) => browser_argument(value@) == Err::<Browser, Seq<char>>(cause@),
        },
{
    let name = to_lowercase(chars(value).as_slice());
    match find_browser(string(name.as_slice()).as_str()) {
        Some(browser) => Ok(browser),
        None => Err("expected one of: default, chrome, firefox, safari, opera".to_owned()),
    }
}

/// A text without blanks.
pub open spec fn without_blanks(s: Seq<char>) -> Seq<char>
    decreases s.len(),
{
    if s.len() == 0 {
        s
    } else if s.last() == ' ' {
        without_blanks(s.drop_last())
    } else {
        without_blanks(s.drop_last()).push(s.last())
    }
}

/// The argument that asks for a browser.
pub open spec fn argument_for(browser: Browser) -> Seq<char> {
    without_blanks(lowercase(display_name(browser)))
}

/// The argument that asks for a browser.
pub fn format_browser(browser: Browser) -> (r: String)
    ensures
        r@ == argument_for(browser),
{
    let name = name_of_browser(browser);
    let name = to_lowercase(chars(name.as_str()).as_slice());
    let mut out: Vec<char> = Vec::new();
    let mut i: usize = 0;
    while i < name.len()
        invariant
            i <= name@.len(),
            out@ == without_blanks(name@.take(i as int)),
        decreases name@.len() - i,
    {
        assert(name@.take(i + 1).drop_last() == name@.take(i as int));
        if name[i] != ' ' {
            out.push(name[i]);
        }
        i += 1;
    }
    assert(name@.take(i as int) == name@);
    string(out.as_slice())
}

/// What it takes to show a login page.
#[derive(Debug)]
pub enum BrowserAction {
    /// Nothing: the outcome is known.
    Skip(BrowserOpenResult),
    /// A command is run.
    Run(CommandSpec),
    /// A given browser is asked to show the page.
    Ask(Browser, String),
}

/// The model of what it takes to show a login page.
pub enum BrowserActionView {
    Skip(BrowserOpenResult),
    Run(CommandSpecView),
    Ask(Browser, Seq<char>),
}

impl View for BrowserAction {
    type V = BrowserActionView;

    open spec fn view(&self) -> BrowserActionView {
        match self {
            BrowserAction::Skip(result) => BrowserActionView::Skip(*result),
            BrowserAction::Run(command) => BrowserActionView::Run(command@),
            BrowserAction::Ask(browser, url) => BrowserActionView::Ask(*browser, url@),
        }
    }
}

/// The command that shows a page in the browser of the operating system.
pub open spec fn system_browser(url: Seq<char>, platform: Platform) -> CommandSpecView {
    match platform {
        Platform::MacOs => CommandSpecView { program: "open"@, args: seq![url] },
        Platform::Windows => CommandSpecView {
            program: "rundll32"@,
            args: seq!["url.dll,FileProtocolHandler"@, url],
        },
        _ => CommandSpecView { program: "xdg-open"@, args: seq![url] },
    }
}

/// What it takes to show a login page.
pub open spec fn browser_action(
    url: LoginUrlView,
    mode: BrowserMode,
    platform: Platform,
) -> BrowserActionView {
    match mode {
        BrowserMode::Disabled => BrowserActionView::Skip(BrowserOpenResult::Disabled),
        BrowserMode::System => BrowserActionView::Run(system_browser(url.text, platform)),
        BrowserMode::Specific(browser) => BrowserActionView::Ask(browser, url.text),
    }
}

/// The command that shows a page in the browser of the operating system.
fn browser_command(url: &str, platform: Platform) -> (r: CommandSpec)
    ensures
        r@ == system_browser(url@, platform),
{
    let command = match platform {
        Platform::MacOs => CommandSpec::new("open").arg(url),
        Platform::Windows => CommandSpec::new("rundll32").arg("url.dll,FileProtocolHandler").arg(
            url,
        ),
        _ => CommandSpec::new("xdg-open").arg(url),
    };
    assert(command@ =~= system_browser(url@, platform));
    command
}

/// Decides how to show a login page.
pub fn open_browser(url: &LoginUrl, mode: BrowserMode, platform: Platform) -> (r: BrowserAction)
    ensures
        r@ == browser_action(url@, mode, platform),
{
    match mode {
        BrowserMode::Disabled => BrowserAction::Skip(BrowserOpenResult::Disabled),
        BrowserMode::System => BrowserAction::Run(browser_command(url.text.as_str(), platform)),
        BrowserMode::Specific(browser) => BrowserAction::Ask(browser, url.text.clone()),
    }
}

/// The outcome of showing a login page, given what the command or the browser
/// has brought.
pub fn browser_outcome(launched: std::result::Result<(), String>) -> (r: Result<BrowserOpenResult>)
    ensures
        view_error(r) == (match launched {
            Ok(_) => Ok(BrowserOpenResult::Opened),
            Err(cause) => Err(ErrorView::BrowserLaunchFailed(cause@)),
        }),
{
    match launched {
        Ok(()) => Ok(BrowserOpenResult::Opened),
        Err(cause) => Err(Error::BrowserLaunchFailed(cause)),
    }
}

/// The argument that asks for a browser is read as that browser.
pub proof fn lemma_browser_round_trip(browser: Browser)
    ensures
        browser_argument(argument_for(browser)) == Ok::<Browser, Seq<char>>(browser),
{
    reveal_strlit("Default");
    reveal_strlit("Firefox");
    reveal_strlit("Internet Explorer");
    reveal_strlit("Chrome");
    reveal_strlit("Opera");
    reveal_strlit("Safari");
    reveal_strlit("WebPositive");
    reveal_strlit("default");
    reveal_strlit("firefox");
    reveal_strlit("ie");
    reveal_strlit("internet explorer");
    reveal_strlit("internetexplorer");
    reveal_strlit("chrome");
    reveal_strlit("opera");
    reveal_strlit("safari");
    reveal_strlit("webpositive");
    match browser {
        Browser::Default => {
            lemma_argument("Default"@, "default"@);
        },
        Browser::Firefox => {
            lemma_argument("Firefox"@, "firefox"@);
        },
        Browser::InternetExplorer => {
            let small = lowercase("Internet Explorer"@);
            let first = small.take(8);
            let last = small.skip(9);
            lemma_without_blanks(first);
            lemma_blank_dropped(first, last);
            assert(small =~= first.push(' ') + last);
            assert(first + last =~= "internetexplorer"@);
            assert(lowercase("internetexplorer"@) =~= "internetexplorer"@);
            assert("internetexplorer"@.len() == 16 && "firefox"@.len() == 7);
        },
        Browser::Chrome => {
            lemma_argument("Chrome"@, "chrome"@);
            assert("chrome"@[0] != "safari"@[0]);
        },
        Browser::Opera => {
            lemma_argument("Opera"@, "opera"@);
        },
        Browser::Safari => {
            lemma_argument("Safari"@, "safari"@);
            assert("chrome"@[0] != "safari"@[0]);
        },
        Browser::WebPositive => {
            lemma_argument("WebPositive"@, "webpositive"@);
        },
    }
    assert("default"@[0] != "firefox"@[0]);
}

/// A text without blanks stays as it is.
proof fn lemma_without_blanks(s: Seq<char>)
    requires
        forall|i: int| 0 <= i < s.len() ==> #[trigger] s[i] != ' ',
    ensures
        without_blanks(s) == s,
    decreases s.len(),
{
    if s.len() > 0 {
        lemma_without_blanks(s.drop_last());
        assert(s.drop_last().push(s.last()) =~= s);
    }
}

/// A blank between two texts without blanks is left out.
proof fn lemma_blank_dropped(a: Seq<char>, b: Seq<char>)
    requires
        forall|i: int| 0 <= i < a.len() ==> #[trigger] a[i] != ' ',
        forall|i: int| 0 <= i < b.len() ==> #[trigger] b[i] != ' ',
    ensures
        without_blanks(a.push(' ') + b) == a + b,
    decreases b.len(),
{
    let s = a.push(' ') + b;
    if b.len() == 0 {
        lemma_without_blanks(a);
        assert(s =~= a.push(' '));
        assert(s.drop_last() =~= a);
        assert(a + b =~= a);
    } else {
        lemma_blank_dropped(a, b.drop_last());
        assert(s.drop_last() =~= a.push(' ') + b.drop_last());
        assert((a + b.drop_last()).push(b.last()) =~= a + b);
    }
}

/// A name without blanks makes the argument in small letters.
proof fn lemma_argument(name: Seq<char>, argument: Seq<char>)
    requires
        lowercase(name) =~= argument,
        forall|i: int| 0 <= i < argument.len() ==> 'a' <= #[trigger] argument[i] && argument[i]
            <= 'z',
    ensures
        without_blanks(lowercase(name)) == argument,
        lowercase(argument) == argument,
{
    lemma_without_blanks(argument);
    assert(lowercase(argument) =~= argument);
}

/// A browser is known by its name in whatever case, and Internet Explorer also
/// by a short one.
pub proof fn lemma_case_does_not_count(a: Seq<char>, b: Seq<char>)
    requires
        lowercase(a) == lowercase(b),
    ensures
        browser_argument(a) == browser_argument(b),
{
}

/// An argument that names no browser is refused.
pub proof fn lemma_other_names_are_refused(value: Seq<char>)
    requires
        lowercase(value) != "firefox"@,
        lowercase(value) != "default"@,
        lowercase(value) != "ie"@,
        lowercase(value) != "internet explorer"@,
        lowercase(value) != "internetexplorer"@,
        lowercase(value) != "chrome"@,
        lowercase(value) != "opera"@,
        lowercase(value) != "safari"@,
        lowercase(value) != "webpositive"@,
    ensures
        browser_argument(value) == Err::<Browser, Seq<char>>(
            "expected one of: default, chrome, firefox, safari, opera"@,
        ),
{
}

/// The whole URL of the login page is handed over, as a single word: to the
/// command that opens the browser of the system, or to the browser that was
/// asked for. Where no browser is to be opened, nothing is.
pub proof fn lemma_whole_page_is_shown(url: LoginUrlView, browser: Browser, platform: Platform)
    ensures
        browser_action(url, BrowserMode::System, Platform::MacOs) == BrowserActionView::Run(
            CommandSpecView { program: "open"@, args: seq![url.text] },
        ),
        browser_action(url, BrowserMode::System, Platform::Linux) == BrowserActionView::Run(
            CommandSpecView { program: "xdg-open"@, args: seq![url.text] },
        ),
        browser_action(url, BrowserMode::System, Platform::Windows) == BrowserActionView::Run(
            CommandSpecView {
                program: "rundll32"@,
                args: seq!["url.dll,FileProtocolHandler"@, url.text],
            },
        ),
        browser_action(url, BrowserMode::System, platform) matches BrowserActionView::Run(command)
            && command.args.last() == url.text,
        browser_action(url, BrowserMode::Specific(browser), platform) == BrowserActionView::Ask(
            browser,
            url.text,
        ),
        browser_action(url, BrowserMode::Disabled, platform) == BrowserActionView::Skip(
            BrowserOpenResult::Disabled,
        ),
{
}

} // verus!
