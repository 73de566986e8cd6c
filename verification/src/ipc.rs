//! What daemon and clients say to each other over the socket.

use vstd::prelude::*;

use crate::config::{theme_list, theme_names};
use crate::text::{
    after_prefix, begins, chars_of, concat, is_white, join, joined, law_prefix, law_replaced,
    law_split_joined, law_white, opt_text, replace_char, replaced, same, split, split_on,
    string_of, strip_prefix, texts, trim, trim_end, trim_head_text, trim_start, trim_start_text,
    trimmed,
};

verus! {

/// The socket that the daemon listens on.
pub const SOCK_FILE: &'static str = "/tmp/mofi.sock";

/// The file that holds the process id of the daemon.
pub const PID_FILE: &'static str = "/tmp/mofi.pid";

/// The file whose lock makes the daemon the only one.
pub const LOCK_FILE: &'static str = "/tmp/mofi.lock";

/// How often a client tries to connect, 100 ms apart, while the daemon is starting up.
pub const CONNECT_ATTEMPTS: u32 = 20;

/// How often a client tries to connect, 100 ms apart, after it started the daemon.
pub const START_ATTEMPTS: u32 = 50;

/// How long a client waits between two attempts to connect, in milliseconds.
pub const RETRY_MS: u64 = 100;

/// How long the daemon waits between two looks at a result, in milliseconds.
pub const WAIT_MS: u64 = 50;

/// How long a client may wait for a selection, in milliseconds.
pub const MAX_WAIT_MS: u64 = 30000;

// ── Shared state ──────────────────────────────────────────────────────────────

/// What the socket threads and the window share.
#[derive(Debug)]
pub struct Slots {
    /// The pass entry that was selected, or nothing if the window was dismissed, once that
    /// is known.
    pub pending_entry: Option<Option<String>>,
    /// Items that a client sent to choose from.
    pub pending_input: Option<Vec<String>>,
    /// The items are those of the theme picker.
    pub pending_input_is_themes: bool,
    /// The item that was selected, or nothing if the window was dismissed, once that is
    /// known.
    pub input_result: Option<Option<String>>,
    /// Requested tab to open when the window next shows.
    pub pending_mode: Option<String>,
}

/// What the shared state holds.
#[verifier::ext_equal]
pub struct SlotsModel {
    pub pending_entry: Option<Option<Seq<char>>>,
    pub pending_input: Option<Seq<Seq<char>>>,
    pub pending_input_is_themes: bool,
    pub input_result: Option<Option<Seq<char>>>,
    pub pending_mode: Option<Seq<char>>,
}

/// What a result holds, once it is known.
pub open spec fn opt_result(r: Option<Option<String>>) -> Option<Option<Seq<char>>> {
    match r {
        Some(o) => Some(opt_text(o)),
        None => None,
    }
}

/// What an optional list of texts holds.
pub open spec fn opt_texts(v: Option<Vec<String>>) -> Option<Seq<Seq<char>>> {
    match v {
        Some(v) => Some(texts(v@)),
        None => None,
    }
}

impl View for Slots {
    type V = SlotsModel;

    open spec fn view(&self) -> SlotsModel {
        SlotsModel {
            pending_entry: opt_result(self.pending_entry),
            pending_input: opt_texts(self.pending_input),
            pending_input_is_themes: self.pending_input_is_themes,
            input_result: opt_result(self.input_result),
            pending_mode: opt_text(self.pending_mode),
        }
    }
}

/// Shared state with nothing pending.
pub open spec fn no_slots() -> SlotsModel {
    SlotsModel {
        pending_entry: None,
        pending_input: None,
        pending_input_is_themes: false,
        input_result: None,
        pending_mode: None,
    }
}

impl Default for Slots {
    fn default() -> (s: Self)
        ensures
            s@ == no_slots(),
    {
        Slots {
            pending_entry: None,
            pending_input: None,
            pending_input_is_themes: false,
            input_result: None,
            pending_mode: None,
        }
    }
}

// ── Requests ──────────────────────────────────────────────────────────────────

/// Message sent from the socket thread to the UI thread.
#[derive(Debug)]
pub enum SocketMsg {
    /// Regular toggle: the UI will show and set the pending entry when done.
    Ready,
    /// Input-select mode: show the given items and return the selected one.
    InputItems(Vec<String>),
}

/// What a client asks for.
#[derive(Debug)]
pub enum Request {
    /// Show the window on a tab, without waiting for an answer.
    Show(String),
    /// Show the window on a tab and answer with the selected entry.
    Tab(String),
    /// Let the user choose from items, those of the theme picker or not.
    Input(Vec<String>, bool),
    /// Toggle the window and answer with the selected entry.
    Ready,
    /// Anything else: only answer with the next selected entry.
    Other,
}

/// What a request holds.
#[verifier::ext_equal]
pub enum RequestModel {
    Show(Seq<char>),
    Tab(Seq<char>),
    Input(Seq<Seq<char>>, bool),
    Ready,
    Other,
}

impl View for Request {
    type V = RequestModel;

    open spec fn view(&self) -> RequestModel {
        match self {
            Request::Show(tab) => RequestModel::Show(tab@),
            Request::Tab(tab) => RequestModel::Tab(tab@),
            Request::Input(items, themes) => RequestModel::Input(texts(items@), *themes),
            Request::Ready => RequestModel::Ready,
            Request::Other => RequestModel::Other,
        }
    }
}

/// A line without the line feeds at its end.
pub open spec fn chomped(s: Seq<char>) -> Seq<char>
    decreases s.len(),
{
    if s.len() > 0 && s.last() == '\n' {
        chomped(s.drop_last())
    } else {
        s
    }
}

/// The request that a line makes.
pub open spec fn request_in(line: Seq<char>) -> RequestModel {
    let l = chomped(line);
    if begins(l, "show:"@) {
        RequestModel::Show(l.skip("show:"@.len() as int))
    } else if begins(l, "tab:"@) {
        RequestModel::Tab(l.skip("tab:"@.len() as int))
    } else if begins(l, "input\t"@) {
        RequestModel::Input(split_on(l.skip("input\t"@.len() as int), '\t'), false)
    } else if begins(l, "themes\t"@) {
        RequestModel::Input(split_on(l.skip("themes\t"@.len() as int), '\t'), true)
    } else if l == "ready"@ {
        RequestModel::Ready
    } else {
        RequestModel::Other
    }
}

fn chomp(s: &[char]) -> (r: &[char])
    ensures
        r@ == chomped(s@),
{
    let mut n: usize = s.len();
    assert(s@.take(n as int) =~= s@);
    while n > 0 && s[n - 1] == '\n'
        invariant
            n <= s@.len(),
            s@.len() == s.len(),
            chomped(s@.take(n as int)) == chomped(s@),
        decreases n,
    {
        assert(s@.take(n as int).drop_last() =~= s@.take(n - 1));
        n = n - 1;
    }
    let r = vstd::slice::slice_subrange(s, 0, n);
    assert(r@ =~= s@.take(n as int));
    r
}

/// Reads the request that a line makes.
pub fn parse_request(line: &str) -> (r: Request)
    ensures
        r@ == request_in(line@),
{
    let v = chars_of(line);
    let l = chomp(v.as_slice());
    if let Some(tab) = strip_prefix(l, "show:") {
        return Request::Show(string_of(tab));
    }
    if let Some(tab) = strip_prefix(l, "tab:") {
        return Request::Tab(string_of(tab));
    }
    if let Some(rest) = strip_prefix(l, "input\t") {
        return Request::Input(split(rest, '\t'), false);
    }
    if let Some(rest) = strip_prefix(l, "themes\t") {
        return Request::Input(split(rest, '\t'), true);
    }
    let s = string_of(l);
    if same(s.as_str(), "ready") {
        Request::Ready
    } else {
        Request::Other
    }
}

/// What a client that made a request waits for.
#[derive(Clone, Copy, PartialEq, Eq, Structural, Debug)]
pub enum WaitFor {
    /// Nothing: there is no answer.
    Nothing,
    /// The item that the user selects.
    Input,
    /// The entry that the user selects.
    Entry,
}

/// The shared state after a request was posted.
pub open spec fn posted(s: SlotsModel, r: RequestModel) -> SlotsModel {
    match r {
        RequestModel::Show(tab) => SlotsModel { pending_mode: Some(tab), ..s },
        RequestModel::Tab(tab) => SlotsModel {
            pending_mode: Some(tab),
            pending_entry: None,
            ..s
        },
        RequestModel::Input(items, themes) => SlotsModel {
            input_result: None,
            pending_input_is_themes: themes,
            pending_input: Some(items),
            ..s
        },
        RequestModel::Ready | RequestModel::Other => SlotsModel { pending_entry: None, ..s },
    }
}

/// What a request waits for.
pub open spec fn waits_for(r: RequestModel) -> WaitFor {
    match r {
        RequestModel::Show(_) => WaitFor::Nothing,
        RequestModel::Input(_, _) => WaitFor::Input,
        _ => WaitFor::Entry,
    }
}

impl Request {
    /// Posts the request for the window. What an earlier request left behind as its result
    /// is dropped. Returns whether the window is to be toggled, now that all is posted, and
    /// what to wait for.
    pub fn post(self, slots: &mut Slots) -> (r: (bool, WaitFor))
        ensures
            final(slots)@ == posted(old(slots)@, self@),
            r.0 == !(self@ is Other),
            r.1 == waits_for(self@),
    {
        match self {
            Request::Show(tab) => {
                slots.pending_mode = Some(tab);
                (true, WaitFor::Nothing)
            },
            Request::Tab(tab) => {
                slots.pending_mode = Some(tab);
                slots.pending_entry = None;
                (true, WaitFor::Entry)
            },
            Request::Input(items, themes) => {
                slots.input_result = None;
                slots.pending_input_is_themes = themes;
                slots.pending_input = Some(items);
                (true, WaitFor::Input)
            },
            Request::Ready => {
                slots.pending_entry = None;
                (true, WaitFor::Entry)
            },
            Request::Other => {
                slots.pending_entry = None;
                (false, WaitFor::Entry)
            },
        }
    }

    /// What the request says to the window.
    pub fn message(self) -> (r: SocketMsg)
        ensures
            match self@ {
                RequestModel::Input(items, _) => r matches SocketMsg::InputItems(v) && texts(v@)
                    == items,
                _ => r is Ready,
            },
    {
        match self {
            Request::Input(items, _) => SocketMsg::InputItems(items),
            _ => SocketMsg::Ready,
        }
    }
}

// ── Answers ───────────────────────────────────────────────────────────────────

/// The answer to a client that sent items.
pub open spec fn input_answer(result: Option<Seq<char>>) -> Seq<char> {
    match result {
        Some(selected) => "ok:"@ + selected + seq!['\n'],
        None => "cancel\n"@,
    }
}

/// The answer to a client that waits for an entry.
pub open spec fn entry_answer(result: Option<Seq<char>>) -> Seq<char> {
    match result {
        Some(name) => name.push('\n'),
        None => seq!['\n'],
    }
}

/// Takes the result for a client that sent items, once it is known, and makes the answer.
pub fn poll_input(slots: &mut Slots) -> (r: Option<String>)
    ensures
        final(slots)@ == (SlotsModel { input_result: None, ..old(slots)@ }),
        opt_text(r) == match old(slots)@.input_result {
            Some(result) => Some(input_answer(result)),
            None => None,
        },
{
    let taken = slots.input_result.take();
    match taken {
        Some(Some(selected)) => {
            let mut s = String::new();
            s.append("ok:");
            s.append(selected.as_str());
            s.push('\n');
            assert(s@ =~= input_answer(Some(selected@)));
            Some(s)
        },
        Some(None) => Some("cancel\n".to_owned()),
        None => None,
    }
}

/// What to do next for a client that waits for an entry.
#[derive(Debug)]
pub enum WaitStep {
    /// Sleep for [`WAIT_MS`], then look again.
    Sleep,
    /// Send the answer.
    Answer(String),
}

/// How long a client has been waiting for an entry.
#[derive(Debug)]
pub struct EntryWait {
    pub looked: bool,
    pub waited: u64,
}

impl Default for EntryWait {
    fn default() -> (w: Self)
        ensures
            w == (EntryWait { looked: false, waited: 0 }),
    {
        EntryWait { looked: false, waited: 0 }
    }
}

impl EntryWait {
    /// Looks for the entry, after the first time when another [`WAIT_MS`] have passed. A
    /// client that has waited for more than [`MAX_WAIT_MS`] is answered as if the window
    /// had been dismissed.
    pub fn step(&mut self, slots: &mut Slots) -> (r: WaitStep)
        requires
            old(self).waited <= MAX_WAIT_MS,
        ensures
            ({
                let waited = old(self).waited + if old(self).looked {
                    WAIT_MS as int
                } else {
                    0
                };
                &&& final(self).looked
                &&& final(self).waited == waited
                &&& if waited > MAX_WAIT_MS {
                    &&& final(slots)@ == old(slots)@
                    &&& r matches WaitStep::Answer(a) && a@ == entry_answer(None)
                } else {
                    &&& final(slots)@ == (SlotsModel { pending_entry: None, ..old(slots)@ })
                    &&& match old(slots)@.pending_entry {
                        Some(result) => r matches WaitStep::Answer(a) && a@ == entry_answer(result),
                        None => r is Sleep && final(self).waited <= MAX_WAIT_MS,
                    }
                }
            }),
    {
        if self.looked {
            self.waited = self.waited + WAIT_MS;
            if self.waited > MAX_WAIT_MS {
                let mut s = String::new();
                s.push('\n');
                assert(s@ =~= entry_answer(None));
                return WaitStep::Answer(s);
            }
        }
        self.looked = true;
        let taken = slots.pending_entry.take();
        match taken {
            Some(Some(name)) => {
                let mut s = String::new();
                s.append(name.as_str());
                s.push('\n');
                assert(s@ =~= entry_answer(Some(name@)));
                WaitStep::Answer(s)
            },
            Some(None) => {
                let mut s = String::new();
                s.push('\n');
                assert(s@ =~= entry_answer(None));
                WaitStep::Answer(s)
            },
            None => WaitStep::Sleep,
        }
    }
}

// ── Clients ───────────────────────────────────────────────────────────────────

/// The line that asks to show a tab.
pub fn tab_message(tab: &str) -> (r: String)
    ensures
        r@ == "tab:"@ + tab@ + seq!['\n'],
{
    let mut s = String::new();
    s.append("tab:");
    s.append(tab);
    s.push('\n');
    assert(s@ =~= "tab:"@ + tab@ + seq!['\n']);
    s
}

/// Items with tabs replaced by spaces, as a tab separates the items in a message.
pub open spec fn untabbed(items: Seq<Seq<char>>) -> Seq<Seq<char>> {
    Seq::new(items.len(), |i: int| replaced(items[i], '\t', ' '))
}

/// The line that sends items to choose from.
pub open spec fn items_message(items: Seq<Seq<char>>, themes: bool) -> Seq<char> {
    (if themes {
        "themes\t"@
    } else {
        "input\t"@
    }) + joined(untabbed(items), '\t') + seq!['\n']
}

/// Makes the line that sends items to choose from.
pub fn message_for_items(items: &Vec<String>, themes: bool) -> (r: String)
    ensures
        r@ == items_message(texts(items@), themes),
{
    let mut encoded: Vec<String> = Vec::new();
    let ghost want = untabbed(texts(items@));
    let mut i: usize = 0;
    while i < items.len()
        invariant
            i <= items@.len(),
            want == untabbed(texts(items@)),
            encoded@.len() == i,
            forall|k: int| 0 <= k < i ==> (#[trigger] encoded@[k])@ == want[k],
        decreases items@.len() - i,
    {
        assert(texts(items@)[i as int] == items@[i as int]@);
        encoded.push(replace_char(items[i].as_str(), '\t', ' '));
        i = i + 1;
    }
    assert(texts(encoded@) =~= want);
    let mut s = String::new();
    if themes {
        s.append("themes\t");
    } else {
        s.append("input\t");
    }
    let body = join(&encoded, '\t');
    s.append(body.as_str());
    s.push('\n');
    assert(s@ =~= items_message(texts(items@), themes));
    s
}

/// The lines that are not empty.
pub open spec fn filled(lines: Seq<Seq<char>>) -> Seq<Seq<char>>
    decreases lines.len(),
{
    if lines.len() == 0 {
        seq![]
    } else if lines.last().len() > 0 {
        filled(lines.drop_last()).push(lines.last())
    } else {
        filled(lines.drop_last())
    }
}

/// The items to choose from in the lines that were read: those that are not empty.
pub fn input_items(lines: Vec<String>) -> (r: Vec<String>)
    ensures
        texts(r@) == filled(texts(lines@)),
{
    let ghost all = texts(lines@);
    let mut r: Vec<String> = Vec::new();
    let mut i: usize = 0;
    assert(texts(r@) =~= filled(all.take(0)));
    while i < lines.len()
        invariant
            i <= lines@.len(),
            all == texts(lines@),
            texts(r@) == filled(all.take(i as int)),
        decreases lines@.len() - i,
    {
        let ghost prev = texts(r@);
        assert(all.take(i as int + 1).drop_last() =~= all.take(i as int));
        assert(all.take(i as int + 1).last() == lines@[i as int]@);
        if !lines[i].as_str().is_empty() {
            r.push(lines[i].clone());
            assert(texts(r@) =~= prev.push(lines@[i as int]@));
        }
        i = i + 1;
    }
    assert(all.take(i as int) =~= all);
    r
}

/// The item that an answer says was selected.
pub open spec fn selected_in(answer: Seq<char>) -> Option<Seq<char>> {
    after_prefix(trimmed(answer), "ok:"@)
}

/// Reads which item was selected out of an answer.
pub fn selected_item(answer: &str) -> (r: Option<String>)
    ensures
        opt_text(r) == selected_in(answer@),
{
    let v = chars_of(answer);
    match strip_prefix(trim(v.as_slice()), "ok:") {
        Some(s) => Some(string_of(s)),
        None => None,
    }
}

/// The entry that an answer names.
pub open spec fn entry_in(answer: Seq<char>) -> Option<Seq<char>> {
    if trimmed(answer).len() == 0 {
        None
    } else {
        Some(trimmed(answer))
    }
}

/// Reads which entry was selected out of an answer.
pub fn selected_entry(answer: &str) -> (r: Option<String>)
    ensures
        opt_text(r) == entry_in(answer@),
{
    let v = chars_of(answer);
    let t = trim(v.as_slice());
    if t.len() == 0 {
        None
    } else {
        Some(string_of(t))
    }
}

/// The pass entry that a client that asked for a tab has to decrypt: clipboard entries are
/// in the clipboard already, and applications are running.
pub fn entry_to_decrypt(tab: &str, answer: &str) -> (r: Option<String>)
    ensures
        opt_text(r) == if tab@ == "pass"@ {
            entry_in(answer@)
        } else {
            None
        },
{
    if same(tab, "pass") {
        selected_entry(answer)
    } else {
        None
    }
}

/// A line of the theme picker: the theme in force is marked.
pub open spec fn theme_line(name: Seq<char>, active: Seq<char>) -> Seq<char> {
    if name == active {
        "* "@ + name
    } else {
        name
    }
}

/// The lines of the theme picker.
pub open spec fn theme_picker(active: Seq<char>) -> Seq<Seq<char>> {
    Seq::new(theme_list().len(), |i: int| theme_line(theme_list()[i], active))
}

/// Lists the themes, the one in force marked.
pub fn theme_lines(active: &str) -> (r: Vec<String>)
    ensures
        texts(r@) == theme_picker(active@),
{
    let all = theme_names();
    let mut r: Vec<String> = Vec::new();
    let mut i: usize = 0;
    while i < all.len()
        invariant
            i <= all@.len(),
            all@.len() == theme_list().len(),
            forall|k: int| 0 <= k < all@.len() ==> (#[trigger] all@[k])@ == theme_list()[k],
            r@.len() == i,
            forall|k: int|
                0 <= k < i ==> (#[trigger] r@[k])@ == theme_line(theme_list()[k], active@),
        decreases all@.len() - i,
    {
        assert(all@[i as int]@ == theme_list()[i as int]);
        if same(all[i], active) {
            let s = concat("* ", all[i]);
            r.push(s);
        } else {
            r.push(all[i].to_owned());
        }
        i = i + 1;
    }
    assert(texts(r@) =~= theme_picker(active@));
    r
}

/// The name of the theme on a line of the theme picker.
pub open spec fn picked_theme(line: Seq<char>) -> Seq<char> {
    trim_start_text(line, "* "@)
}

/// Reads the name of the theme on a line of the theme picker.
pub fn theme_on_line(line: &str) -> (r: String)
    ensures
        r@ == picked_theme(line@),
{
    let v = chars_of(line);
    string_of(trim_head_text(v.as_slice(), "* "))
}

/// What the client of the theme picker does with an answer.
#[derive(Debug)]
pub enum ThemeChoice {
    /// Save the theme.
    Save(String),
    /// There is no such theme.
    Unknown(String),
    /// Nothing was selected.
    Nothing,
}

/// Decides what the client of the theme picker does with an answer.
pub fn theme_choice(answer: &str) -> (r: ThemeChoice)
    ensures
        match selected_in(answer@) {
            Some(line) => if theme_list().contains(picked_theme(line)) {
                r matches ThemeChoice::Save(n) && n@ == picked_theme(line)
            } else {
                r matches ThemeChoice::Unknown(n) && n@ == picked_theme(line)
            },
            None => r is Nothing,
        },
{
    match selected_item(answer) {
        Some(line) => {
            let name = theme_on_line(line.as_str());
            if crate::config::is_theme_name(name.as_str()) {
                ThemeChoice::Save(name)
            } else {
                ThemeChoice::Unknown(name)
            }
        },
        None => ThemeChoice::Nothing,
    }
}

// ── Laws ──────────────────────────────────────────────────────────────────────

/// A line feed at the end of a line that holds no other goes.
proof fn lemma_chomped(s: Seq<char>)
    requires
        !s.contains('\n'),
    ensures
        chomped(s.push('\n')) == s,
{
    assert(s.push('\n').drop_last() =~= s);
    if s.len() > 0 {
        assert(s[s.len() - 1] == s.last());
    }
    assert(chomped(s) == s);
}

/// The items that a client sends are the items that the daemon gets, with tabs replaced by
/// spaces.
pub proof fn law_items_arrive(items: Seq<Seq<char>>, themes: bool)
    requires
        items.len() > 0,
        forall|i: int| 0 <= i < items.len() ==> !(#[trigger] items[i]).contains('\n'),
    ensures
        request_in(items_message(items, themes)) == RequestModel::Input(untabbed(items), themes),
{
    let enc = untabbed(items);
    let head = if themes {
        "themes\t"@
    } else {
        "input\t"@
    };
    let body = joined(enc, '\t');
    let l = head + body;
    reveal_strlit("show:");
    reveal_strlit("tab:");
    reveal_strlit("input\t");
    reveal_strlit("themes\t");
    assert forall|i: int| 0 <= i < enc.len() implies !(#[trigger] enc[i]).contains('\t')
        && !enc[i].contains('\n') by {
        if enc[i].contains('\t') {
            let k = choose|k: int| 0 <= k < enc[i].len() && enc[i][k] == '\t';
            assert(enc[i][k] != '\t');
        }
        if enc[i].contains('\n') {
            let k = choose|k: int| 0 <= k < enc[i].len() && enc[i][k] == '\n';
            assert(items[i][k] == '\n');
            assert(items[i].contains('\n'));
        }
    }
    law_split_joined(enc, '\t');
    lemma_joined_free(enc, '\t', '\n');
    assert(!l.contains('\n')) by {
        if l.contains('\n') {
            let k = choose|k: int| 0 <= k < l.len() && l[k] == '\n';
            if k < head.len() {
                assert(head[k] == '\n');
            } else {
                assert(body[k - head.len()] == '\n');
                assert(body.contains('\n'));
            }
        }
    }
    lemma_chomped(l);
    assert(items_message(items, themes) =~= l.push('\n'));
    assert(l[0] == head[0]);
    if begins(l, "show:"@) {
        assert(l[0] == "show:"@[0]);
    }
    if begins(l, "tab:"@) {
        assert(l[0] == "tab:"@[0] && l[1] == "tab:"@[1]);
        assert(l[1] == head[1]);
    }
    if themes && begins(l, "input\t"@) {
        assert(l[0] == "input\t"@[0]);
    }
    assert(l.take(head.len() as int) =~= head);
    assert(l.skip(head.len() as int) =~= body);
}

/// Joined pieces hold only what the pieces and the separator hold.
proof fn lemma_joined_free(pieces: Seq<Seq<char>>, sep: char, x: char)
    requires
        x != sep,
        forall|i: int| 0 <= i < pieces.len() ==> !(#[trigger] pieces[i]).contains(x),
    ensures
        !joined(pieces, sep).contains(x),
    decreases pieces.len(),
{
    let j = joined(pieces, sep);
    if pieces.len() > 1 {
        let init = joined(pieces.drop_last(), sep);
        lemma_joined_free(pieces.drop_last(), sep, x);
        if j.contains(x) {
            let k = choose|k: int| 0 <= k < j.len() && j[k] == x;
            if k < init.len() {
                assert(init[k] == x);
                assert(init.contains(x));
            } else if k > init.len() {
                assert(pieces.last()[k - init.len() - 1] == x);
                assert(pieces.last().contains(x));
                assert(pieces[pieces.len() - 1] == pieces.last());
            }
        }
    } else if pieces.len() == 1 {
        assert(!pieces[0].contains(x));
    }
}

/// The tab that a client asks for is the tab that the daemon is asked for.
pub proof fn law_tab_arrives(tab: Seq<char>)
    requires
        !tab.contains('\n'),
    ensures
        request_in("tab:"@ + tab + seq!['\n']) == RequestModel::Tab(tab),
{
    let l = "tab:"@ + tab;
    reveal_strlit("show:");
    reveal_strlit("tab:");
    assert(!l.contains('\n')) by {
        if l.contains('\n') {
            let k = choose|k: int| 0 <= k < l.len() && l[k] == '\n';
            if k >= 4 {
                assert(tab[k - 4] == '\n');
                assert(tab.contains('\n'));
            } else {
                assert("tab:"@[k] == '\n');
            }
        }
    }
    lemma_chomped(l);
    assert("tab:"@ + tab + seq!['\n'] =~= l.push('\n'));
    if begins(l, "show:"@) {
        assert(l[0] == "show:"@[0]);
    }
    assert(l.take(4) =~= "tab:"@);
    assert(l.skip(4) =~= tab);
}

/// What the user selected is what the client gets; white space at the end of it aside.
pub proof fn law_selection_arrives(selected: Seq<char>)
    requires
        trim_end(selected) == selected,
    ensures
        selected_in(input_answer(Some(selected))) == Some(selected),
{
    reveal_strlit("ok:");
    let a = input_answer(Some(selected));
    assert(a[0] == "ok:"@[0]);
    assert(trim_start(a) == a);
    assert(a.drop_last() =~= "ok:"@ + selected);
    let b = "ok:"@ + selected;
    assert(trim_end(b) == b) by {
        if selected.len() > 0 {
            assert(b.last() == selected.last());
            if is_white(selected.last()) {
                lemma_trim_end_len(selected.drop_last());
            }
        } else {
            assert(b.last() == "ok:"@[2]);
        }
    }
    assert(trimmed(a) == b);
    assert(b.take(3) =~= "ok:"@);
    assert(b.skip(3) =~= selected);
}

proof fn lemma_trim_end_len(s: Seq<char>)
    ensures
        trim_end(s).len() <= s.len(),
    decreases s.len(),
{
    if s.len() > 0 && is_white(s.last()) {
        lemma_trim_end_len(s.drop_last());
    }
}

/// A dismissed window is never taken for a selection.
pub proof fn law_cancel_selects_nothing()
    ensures
        selected_in(input_answer(None)) is None,
        entry_in(entry_answer(None)) is None,
{
    reveal_strlit("cancel\n");
    reveal_strlit("ok:");
    let a = "cancel\n"@;
    assert(a[0] == 'c');
    assert(trim_start(a) == a);
    assert(a.last() == '\n');
    assert(a.drop_last().last() == 'l');
    assert(trim_end(a.drop_last()) == a.drop_last());
    assert(trimmed(a) == a.drop_last());
    if begins(a.drop_last(), "ok:"@) {
        assert(a.drop_last()[0] == "ok:"@[0]);
    }
    let b = entry_answer(None);
    assert(b[0] == '\n');
    assert(b.skip(1) =~= seq![]);
    assert(trim_start(b.skip(1)) == b.skip(1));
    assert(trim_start(b) == b.skip(1));
}

/// A request never sees the result of an earlier one.
pub proof fn law_no_stale_result(s: SlotsModel, r: RequestModel)
    ensures
        waits_for(r) == WaitFor::Input ==> posted(s, r).input_result is None,
        waits_for(r) == WaitFor::Entry ==> posted(s, r).pending_entry is None,
{
}

/// Each line of the theme picker stands for its theme, marked or not.
pub proof fn law_theme_lines(active: Seq<char>, i: int)
    requires
        0 <= i < theme_list().len(),
    ensures
        picked_theme(theme_picker(active)[i]) == theme_list()[i],
{
    let name = theme_list()[i];
    reveal_strlit("* ");
    reveal_strlit("kanagawa");
    reveal_strlit("gruvbox");
    reveal_strlit("nord");
    reveal_strlit("tokyonight");
    reveal_strlit("dracula");
    reveal_strlit("solarized");
    reveal_strlit("monokai");
    reveal_strlit("catppuccin");
    reveal_strlit("onedark");
    reveal_strlit("rosepine");
    assert(name.len() > 0 && name[0] != '*');
    assert(!begins(name, "* "@)) by {
        if begins(name, "* "@) {
            assert(name[0] == "* "@[0]);
        }
    }
    assert(trim_start_text(name, "* "@) == name);
    let marked = "* "@ + name;
    assert(marked.take(2) =~= "* "@);
    assert(marked.skip(2) =~= name);
}

/// The items to choose from are the lines that are not empty, all of them, whole and in their
/// order.
pub proof fn law_input_items(lines: Seq<Seq<char>>)
    ensures
        filled(lines) == lines.filter(|l: Seq<char>| l.len() > 0),
    decreases lines.len(),
{
    reveal(Seq::filter);
    let keep = |l: Seq<char>| l.len() > 0;
    if lines.len() > 0 {
        law_input_items(lines.drop_last());
    } else {
        assert(filled(lines) =~= lines.filter(keep));
    }
}

/// A line is offered exactly where it was read and is not empty, whatever else it holds.
pub proof fn law_line_is_offered(lines: Seq<Seq<char>>, line: Seq<char>)
    ensures
        filled(lines).contains(line) == (lines.contains(line) && line.len() > 0),
    decreases lines.len(),
{
    if lines.len() > 0 {
        let init = lines.drop_last();
        law_line_is_offered(init, line);
        let f = filled(lines);
        let g = filled(init);
        if lines.contains(line) && line.len() > 0 {
            let i = choose|i: int| 0 <= i < lines.len() && lines[i] == line;
            if i < init.len() {
                assert(init[i] == line);
                let k = choose|k: int| 0 <= k < g.len() && g[k] == line;
                assert(f[k] == line);
            } else {
                assert(f[g.len() as int] == line);
            }
        }
        if f.contains(line) {
            let k = choose|k: int| 0 <= k < f.len() && f[k] == line;
            if k < g.len() {
                assert(g[k] == line);
                let i = choose|i: int| 0 <= i < init.len() && init[i] == line;
                assert(lines[i] == line);
            } else {
                assert(lines[lines.len() - 1] == line);
            }
        }
    }
}

/// Items without tabs and line feeds arrive as they were sent, all of them and in their order;
/// of a tab, a space arrives, and nothing else changes.
pub proof fn law_items_arrive_whole(items: Seq<Seq<char>>, themes: bool)
    requires
        items.len() > 0,
        forall|i: int| 0 <= i < items.len() ==> !(#[trigger] items[i]).contains('\n'),
    ensures
        request_in(items_message(items, themes)) matches RequestModel::Input(got, t) && {
            &&& t == themes
            &&& got.len() == items.len()
            &&& forall|i: int|
                0 <= i < items.len() && !(#[trigger] items[i]).contains('\t') ==> got[i] == items[i]
            &&& forall|i: int, k: int|
                0 <= i < items.len() && 0 <= k < items[i].len() ==> #[trigger] got[i][k] == (
                if items[i][k] == '\t' {
                    ' '
                } else {
                    items[i][k]
                })
            &&& forall|i: int|
                0 <= i < items.len() ==> (#[trigger] got[i]).len() == items[i].len()
        },
{
    law_items_arrive(items, themes);
    let got = untabbed(items);
    assert forall|i: int|
        0 <= i < items.len() && !(#[trigger] items[i]).contains('\t') implies got[i] == items[i] by {
        law_replaced(items[i], '\t', ' ');
    }
}

/// What a client sends line by line is what the daemon offers: the lines that are not empty.
pub proof fn law_piped_lines_arrive(lines: Seq<Seq<char>>, themes: bool)
    requires
        lines.filter(|l: Seq<char>| l.len() > 0).len() > 0,
        forall|i: int|
            0 <= i < lines.len() ==> !(#[trigger] lines[i]).contains('\n') && !lines[i].contains(
                '\t',
            ),
    ensures
        request_in(items_message(filled(lines), themes)) == RequestModel::Input(
            lines.filter(|l: Seq<char>| l.len() > 0),
            themes,
        ),
{
    law_input_items(lines);
    let f = filled(lines);
    assert forall|i: int| 0 <= i < f.len() implies !(#[trigger] f[i]).contains('\n')
        && !f[i].contains('\t') by {
        assert(f.contains(f[i]));
        law_line_is_offered(lines, f[i]);
        let k = choose|k: int| 0 <= k < lines.len() && lines[k] == f[i];
        assert(!lines[k].contains('\n'));
    }
    law_items_arrive(f, themes);
    assert(untabbed(f) =~= f) by {
        assert forall|i: int| 0 <= i < f.len() implies #[trigger] untabbed(f)[i] == f[i] by {
            law_replaced(f[i], '\t', ' ');
        }
    }
}

/// A line that asks to show a tab names the tab behind the colon, and `ready` asks to toggle;
/// line feeds at the end of a line do not count.
pub proof fn law_plain_requests(tab: Seq<char>)
    requires
        !tab.contains('\n'),
    ensures
        request_in("show:"@ + tab + seq!['\n']) == RequestModel::Show(tab),
        request_in("show:"@ + tab) == RequestModel::Show(tab),
        request_in("ready\n"@) == RequestModel::Ready,
        request_in("ready"@) == RequestModel::Ready,
{
    reveal_strlit("show:");
    reveal_strlit("tab:");
    reveal_strlit("input\t");
    reveal_strlit("themes\t");
    reveal_strlit("ready\n");
    reveal_strlit("ready");
    let l = "show:"@ + tab;
    assert(!l.contains('\n')) by {
        if l.contains('\n') {
            let k = choose|k: int| 0 <= k < l.len() && l[k] == '\n';
            if k >= 5 {
                assert(tab[k - 5] == '\n');
                assert(tab.contains('\n'));
            } else {
                assert("show:"@[k] == '\n');
            }
        }
    }
    lemma_chomped(l);
    assert(l + seq!['\n'] =~= l.push('\n'));
    law_prefix("show:"@, tab);
    if l.last() == '\n' {
        assert(l[l.len() - 1] == '\n');
    }
    assert(chomped(l) == l);
    assert(l.skip(5) =~= tab);
    let r = "ready"@;
    assert("ready\n"@.drop_last() =~= r);
    assert(r.last() == 'y');
    assert(chomped(r) == r);
    assert(chomped("ready\n"@) == r);
    assert(r[0] == 'r');
    assert(!begins(r, "show:"@)) by {
        if begins(r, "show:"@) {
            assert(r[0] == "show:"@[0]);
        }
    }
    assert(!begins(r, "tab:"@)) by {
        if begins(r, "tab:"@) {
            assert(r[0] == "tab:"@[0]);
        }
    }
}

/// A request that makes the window show something says so to it, and nothing of what others
/// asked for is lost but what it replaces.
pub proof fn law_posted(s: SlotsModel, tab: Seq<char>, items: Seq<Seq<char>>, themes: bool)
    ensures
        posted(s, RequestModel::Show(tab)).pending_mode == Some(tab),
        posted(s, RequestModel::Tab(tab)).pending_mode == Some(tab),
        posted(s, RequestModel::Show(tab)).pending_entry == s.pending_entry,
        posted(s, RequestModel::Show(tab)).pending_input == s.pending_input,
        posted(s, RequestModel::Tab(tab)).pending_input == s.pending_input,
        posted(s, RequestModel::Input(items, themes)).pending_input == Some(items),
        posted(s, RequestModel::Input(items, themes)).pending_input_is_themes == themes,
        posted(s, RequestModel::Input(items, themes)).pending_mode == s.pending_mode,
        posted(s, RequestModel::Input(items, themes)).pending_entry == s.pending_entry,
        posted(s, RequestModel::Ready).pending_mode == s.pending_mode,
        posted(s, RequestModel::Ready).pending_input == s.pending_input,
        waits_for(RequestModel::Show(tab)) == WaitFor::Nothing,
        waits_for(RequestModel::Tab(tab)) == WaitFor::Entry,
        waits_for(RequestModel::Input(items, themes)) == WaitFor::Input,
        waits_for(RequestModel::Ready) == WaitFor::Entry,
{
}

/// The entry that was selected is the entry that the client gets, the whole of it; white space
/// around it aside.
pub proof fn law_entry_arrives(name: Seq<char>)
    requires
        name.len() > 0,
        !is_white(name[0]) && !is_white(name.last()),
    ensures
        entry_in(entry_answer(Some(name))) == Some(name),
{
    let e = Seq::<char>::empty();
    law_white('\n');
    crate::text::law_trimmed(e, name, seq!['\n']);
    assert(name.push('\n') =~= e + name + seq!['\n']);
}

/// In the theme picker every theme has its line, in the order of the themes: the theme in
/// force with a star and a blank before its name, any other with its name alone.
pub proof fn law_theme_picker(active: Seq<char>, i: int)
    requires
        0 <= i < theme_list().len(),
    ensures
        theme_picker(active).len() == theme_list().len(),
        theme_list()[i] == active ==> theme_picker(active)[i] == seq!['*', ' '] + theme_list()[i],
        theme_list()[i] != active ==> theme_picker(active)[i] == theme_list()[i],
{
    reveal_strlit("* ");
    assert("* "@ =~= seq!['*', ' ']);
}

} // verus!
