//! A talk: the voice it is led in, what is told when it fails, and the talks of before.

use vstd::prelude::*;
use vstd::string::*;

use crate::flow::graph::Text;
use crate::json::{entries, text_or, text_or_null, Json, JsonView};
use crate::sorting::{in_order, law_order_keeps_what_came, sort, Ranked};
use crate::strmap::{lemma_text_insert, lemma_text_remove, text_map, StrMap};
use crate::text::{begins, join3, law_beginnings_and_ends, opt_str};

verus! {

/// The voice that the assistant takes on.
#[derive(PartialEq, Eq, Structural, Clone, Copy, Debug)]
pub enum Persona {
    Voice,
    Mentor { gate: bool },
    Plain,
}

pub open spec fn persona_for(verbose: Option<bool>, gate: Option<bool>, voice: Option<bool>) -> Persona {
    if voice == Some(true) {
        Persona::Voice
    } else if verbose == Some(true) {
        Persona::Mentor { gate: gate != Some(false) }
    } else {
        Persona::Plain
    }
}

/// The voice for a talk: speech goes before teaching, and the teacher asks back unless told not
/// to.
pub fn persona(verbose: Option<bool>, gate: Option<bool>, voice: Option<bool>) -> (r: Persona)
    ensures
        r == persona_for(verbose, gate, voice),
{
    let spoken = match voice {
        Some(b) => b,
        None => false,
    };
    let teaching = match verbose {
        Some(b) => b,
        None => false,
    };
    let asking = match gate {
        Some(b) => b,
        None => true,
    };
    if spoken {
        Persona::Voice
    } else if teaching {
        Persona::Mentor { gate: asking }
    } else {
        Persona::Plain
    }
}

// ---- failures that are about credentials ----

/// `c` in lower case, as far as the letters of the words that are looked for go. The Kelvin sign
/// is a `k` when case does not matter.
pub open spec fn folded(c: char) -> char {
    if 'A' <= c <= 'Z' {
        (c as u32 + 32) as char
    } else if c == '\u{212a}' {
        'k'
    } else {
        c
    }
}

/// `api`, any character but a line break, and `key` stand at `i`.
pub open spec fn api_key_at(s: Text, i: int) -> bool {
    &&& 0 <= i && i + 7 <= s.len()
    &&& folded(s[i]) == 'a' && folded(s[i + 1]) == 'p' && folded(s[i + 2]) == 'i'
    &&& s[i + 3] != '\n'
    &&& folded(s[i + 4]) == 'k' && folded(s[i + 5]) == 'e' && folded(s[i + 6]) == 'y'
}

/// `auth` stands at `i`.
pub open spec fn auth_at(s: Text, i: int) -> bool {
    &&& 0 <= i && i + 4 <= s.len()
    &&& folded(s[i]) == 'a' && folded(s[i + 1]) == 'u' && folded(s[i + 2]) == 't' && folded(s[i + 3]) == 'h'
}

/// The message speaks of a key or of authentication.
pub open spec fn names_credentials(s: Text) -> bool {
    exists|i: int| #[trigger] api_key_at(s, i) || auth_at(s, i)
}

/// `regex::Regex::new` and `Regex::is_match`: whether the pattern is found anywhere in the text.
/// Of patterns only this one is spoken of: `(?i)` takes letters by Unicode's simple case folding,
/// in which these nine letters have no other forms but the Kelvin sign for `k`, and `.` takes any
/// character but a line feed.
#[verifier::external_body]
fn pattern_found(pattern: &str, text: &str) -> (r: bool)
    requires
        pattern@ == "(?i)api.key|auth"@,
    ensures
        r == names_credentials(text@),
{
    match regex::Regex::new(pattern) {
        Ok(re) => re.is_match(text),
        Err(_) => false,
    }
}

/// Whether a failure's message is about credentials.
pub fn is_authy_message(msg: &str) -> (r: bool)
    ensures
        r == names_credentials(msg@),
{
    pattern_found("(?i)api.key|auth", msg)
}

/// A failure is about credentials where the provider answered that it does not know the caller,
/// or the message says so.
pub open spec fn about_credentials(status: Option<u16>, msg: Text) -> bool {
    status == Some(401u16) || names_credentials(msg)
}

pub open spec fn rejected_text(label: Text) -> Text {
    "Chat credentials rejected — check the "@ + label + " key (\u{2318}, \u{2192} Assistant) and try again."@
}

/// A talk with the provider `id` starts: what was noted about it before is about to be tried
/// again.
pub fn send_started(last_errors: &mut StrMap<String>, id: &str)
    ensures
        text_map(final(last_errors)@) == text_map(old(last_errors)@).remove(id@),
{
    proof { lemma_text_remove(last_errors@, id@); }
    last_errors.remove(id);
}

/// A talk with the provider `id` failed. What is told; where credentials were to blame, it is
/// also noted about the provider until the next talk with it.
pub fn send_failed(last_errors: &mut StrMap<String>, id: &str, label: &str, status: Option<u16>, msg: &str) -> (r: String)
    ensures
        r@ == if about_credentials(status, msg@) { rejected_text(label@) } else { msg@ },
        text_map(final(last_errors)@) == if about_credentials(status, msg@) {
            text_map(old(last_errors)@).insert(id@, rejected_text(label@))
        } else {
            text_map(old(last_errors)@)
        },
{
    let unknown_caller = match status {
        Some(s) => s == 401,
        None => false,
    };
    if unknown_caller || is_authy_message(msg) {
        let friendly = join3("Chat credentials rejected — check the ", label, " key (\u{2318}, \u{2192} Assistant) and try again.");
        let note = friendly.clone();
        proof { lemma_text_insert(last_errors@, id@, note); }
        last_errors.set(id, note);
        friendly
    } else {
        msg.to_owned()
    }
}

/// What is noted about a provider is gone once a talk with it starts, and other providers' notes
/// are not touched by either.
pub proof fn law_notes_last_until_the_next_talk(errors: Map<Text, Text>, id: Text, label: Text, other: Text)
    ensures
        !errors.insert(id, rejected_text(label)).remove(id).contains_key(id),
        other != id ==> errors.insert(id, rejected_text(label)).contains_key(other) == errors.contains_key(other),
        other != id ==> errors.remove(id).contains_key(other) == errors.contains_key(other),
{
}

/// The fields of the event that ends a talk.
pub open spec fn done_entry(id: Text, aborted: bool, error: Option<Text>) -> Seq<(Text, JsonView)> {
    seq![("id"@, JsonView::Text(id)), ("aborted"@, JsonView::Bool(aborted)), ("error"@, text_or_null(error))]
}

pub fn done_event(id: &str, aborted: bool, error: Option<&str>) -> (r: Vec<(String, Json)>)
    ensures
        entries(r@) == done_entry(id@, aborted, opt_str(error)),
{
    let mut out: Vec<(String, Json)> = Vec::new();
    out.push(("id".to_owned(), Json::Text(id.to_owned())));
    out.push(("aborted".to_owned(), Json::Bool(aborted)));
    out.push(("error".to_owned(), text_or(error)));
    assert(entries(out@) =~= done_entry(id@, aborted, opt_str(error)));
    out
}

// ---- one talk ----

/// The provider a talk is with.
pub struct Speaker {
    pub id: String,
    pub label: String,
}

/// How a talk failed: the status that the provider answered with, where it did, and the message.
pub struct SendFailure {
    pub status: Option<u16>,
    pub message: String,
}

/// A talk on its way.
pub enum SendStep {
    /// Lead the talk in this voice. It ends itself, and says so, unless it fails.
    Talk(Persona),
    /// End the talk with these fields.
    Tell(Vec<(String, Json)>),
    /// The talk has ended itself.
    Done,
}

pub enum SendStepView {
    Talk(Persona),
    Tell(Seq<(Text, JsonView)>),
    Done,
}

impl View for SendStep {
    type V = SendStepView;

    open spec fn view(&self) -> SendStepView {
        match self {
            SendStep::Talk(p) => SendStepView::Talk(*p),
            SendStep::Tell(fields) => SendStepView::Tell(entries(fields@)),
            SendStep::Done => SendStepView::Done,
        }
    }
}

/// What is told of a failure of a talk with a provider of this label.
pub open spec fn told_text(label: Text, f: SendFailure) -> Text {
    if about_credentials(f.status, f.message@) {
        rejected_text(label)
    } else {
        f.message@
    }
}

/// What is done about the talk `id`, and what is noted about its provider from then on. Without a
/// provider there is none; a talk that starts clears the note; one that failed over credentials
/// leaves one.
pub open spec fn send_next(
    notes: Map<Text, Text>,
    id: Text,
    speaker: Result<Speaker, String>,
    voice: Persona,
    ended: Option<Result<(), SendFailure>>,
) -> (SendStepView, Map<Text, Text>) {
    match speaker {
        Err(why) => (SendStepView::Tell(done_entry(id, false, Some(why@))), notes),
        Ok(s) => match ended {
            None => (SendStepView::Talk(voice), notes.remove(s.id@)),
            Some(Ok(_)) => (SendStepView::Done, notes),
            Some(Err(f)) => (
                SendStepView::Tell(done_entry(id, false, Some(told_text(s.label@, f)))),
                if about_credentials(f.status, f.message@) {
                    notes.insert(s.id@, rejected_text(s.label@))
                } else {
                    notes
                },
            ),
        },
    }
}

/// What to do next about the talk `id`: `speaker` is the provider it is with, or why there is
/// none, and `ended` how it went, once it did.
pub fn chat_send(
    last_errors: &mut StrMap<String>,
    id: &str,
    speaker: &Result<Speaker, String>,
    verbose: Option<bool>,
    gate: Option<bool>,
    voice: Option<bool>,
    ended: Option<Result<(), SendFailure>>,
) -> (r: SendStep)
    ensures
        (r@, text_map(final(last_errors)@)) == send_next(
            text_map(old(last_errors)@),
            id@,
            *speaker,
            persona_for(verbose, gate, voice),
            ended,
        ),
{
    match speaker {
        Err(why) => SendStep::Tell(done_event(id, false, Some(why))),
        Ok(s) => match ended {
            None => {
                send_started(last_errors, &s.id);
                SendStep::Talk(persona(verbose, gate, voice))
            },
            Some(Ok(_)) => SendStep::Done,
            Some(Err(f)) => {
                let told = send_failed(last_errors, &s.id, &s.label, f.status, &f.message);
                SendStep::Tell(done_event(id, false, Some(&told)))
            },
        },
    }
}

/// Whatever goes wrong with a talk, the one who asked is told; nothing more is said of a talk that
/// was led to its end.
pub proof fn law_every_failed_talk_is_told(
    notes: Map<Text, Text>,
    id: Text,
    speaker: Result<Speaker, String>,
    voice: Persona,
    ended: Option<Result<(), SendFailure>>,
)
    ensures
        speaker is Err ==> send_next(notes, id, speaker, voice, ended).0 == SendStepView::Tell(
            done_entry(id, false, Some(speaker->Err_0@)),
        ),
        speaker is Ok && ended is Some && ended->0 is Err ==> send_next(notes, id, speaker, voice, ended).0 is Tell,
        speaker is Ok && ended == Some(Ok::<(), SendFailure>(())) ==> send_next(notes, id, speaker, voice, ended) == (SendStepView::Done, notes),
{
}

// ---- the talks of before ----

/// One talk of before, as it is listed.
pub struct HistoryEntry {
    pub id: String,
    pub modified_ms: u64,
    pub count: u64,
    pub snippet: String,
}

impl Ranked for HistoryEntry {
    open spec fn ahead(self, other: Self) -> bool {
        self.modified_ms > other.modified_ms
    }

    fn is_ahead(&self, other: &Self) -> (r: bool) {
        self.modified_ms > other.modified_ms
    }

    proof fn lemma_one_way(a: Self, b: Self) {
    }

    proof fn lemma_chain(a: Self, b: Self, c: Self) {
    }
}

/// A file of the store: whether its name is that of a log, whether it could be read, whether it
/// holds what is looked for, and what it comes to.
pub struct HistoryFile {
    pub is_log: bool,
    pub readable: bool,
    pub found: bool,
    pub entry: Option<HistoryEntry>,
}

/// The file is a log that could be read, that holds what is looked for and that comes to
/// something.
pub open spec fn listed(f: HistoryFile) -> bool {
    f.is_log && f.readable && f.found && f.entry is Some
}

/// What the files that are listed come to, in the order of the files.
pub open spec fn listed_entries(files: Seq<HistoryFile>) -> Seq<HistoryEntry>
    decreases files.len(),
{
    if files.len() == 0 {
        Seq::empty()
    } else {
        let before = listed_entries(files.drop_last());
        if listed(files.last()) {
            before.push(files.last().entry->0)
        } else {
            before
        }
    }
}

/// The talks of before, the latest first.
pub fn chat_history_list(files: Vec<HistoryFile>) -> (r: Vec<HistoryEntry>)
    ensures
        r@ == in_order(listed_entries(files@)),
{
    let ghost all = files@;
    let mut rest = files;
    let mut out: Vec<HistoryEntry> = Vec::new();
    let ghost mut done: int = 0;
    assert(all.take(0) =~= Seq::<HistoryFile>::empty());
    assert(all.skip(0) =~= all);
    while rest.len() > 0
        invariant
            0 <= done <= all.len(),
            rest@ == all.skip(done),
            out@ == listed_entries(all.take(done)),
        decreases rest@.len(),
    {
        let f = rest.remove(0);
        proof {
            assert(f == all[done]);
            assert(all.take(done + 1).drop_last() =~= all.take(done));
            assert(all.take(done + 1).last() == f);
            assert(rest@ =~= all.skip(done + 1));
            done = done + 1;
        }
        if f.is_log && f.readable && f.found {
            if let Some(e) = f.entry {
                out.push(e);
            }
        }
    }
    assert(all.take(done) =~= all);
    sort(out)
}

/// A voice that was asked for comes first, a mentor where long answers were asked for, one that
/// holds back unless it was told not to, and else the plain one.
pub proof fn law_personas_are_those_asked_for(verbose: Option<bool>, gate: Option<bool>, voice: Option<bool>)
    ensures
        persona_for(verbose, gate, Some(true)) is Voice,
        voice != Some(true) && verbose == Some(true) ==> persona_for(verbose, gate, voice) is Mentor,
        voice != Some(true) ==> persona_for(Some(true), None, voice) == (Persona::Mentor { gate: true }),
        voice != Some(true) ==> persona_for(Some(true), Some(true), voice) == (Persona::Mentor { gate: true }),
        voice != Some(true) ==> persona_for(Some(true), Some(false), voice) == (Persona::Mentor { gate: false }),
        voice != Some(true) && verbose != Some(true) ==> persona_for(verbose, gate, voice) is Plain,
{
}

/// Letters are compared without regard to case: a capital counts as its small letter, and a small
/// letter, a digit and a blank as themselves.
pub proof fn law_letters_count_without_case(c: char)
    ensures
        'a' <= c <= 'z' ==> folded(c) == c,
        'A' <= c <= 'Z' ==> folded(c) as u32 == c as u32 + 32,
        '0' <= c <= '9' || c == ' ' || c == '_' || c == '-' ==> folded(c) == c,
{
}

proof fn lemma_auth_names(s: Text, i: int)
    requires
        auth_at(s, i),
    ensures
        names_credentials(s),
{
    let both = api_key_at(s, i);
    assert(both || auth_at(s, i));
}

/// A failure is about the credentials where the service says that the request was not allowed, or
/// where its words speak of a key or of authorization, in whatever case and wherever they stand.
pub proof fn law_rejections_are_recognised(status: Option<u16>, a: Text, b: Text, sep: char)
    ensures
        about_credentials(Some(401u16), a),
        about_credentials(status, a + "auth"@ + b),
        about_credentials(status, a + "Auth"@ + b),
        about_credentials(status, a + "AUTH"@ + b),
        sep != '\n' ==> about_credentials(status, a + seq!['A', 'P', 'I', sep, 'k', 'e', 'y'] + b),
        sep != '\n' ==> about_credentials(status, a + seq!['a', 'p', 'i', sep, 'k', 'e', 'y'] + b),
{
    reveal_strlit("auth");
    reveal_strlit("Auth");
    reveal_strlit("AUTH");
    let i = a.len() as int;
    lemma_auth_names(a + "auth"@ + b, i);
    lemma_auth_names(a + "Auth"@ + b, i);
    lemma_auth_names(a + "AUTH"@ + b, i);
    if sep != '\n' {
        assert(api_key_at(a + seq!['A', 'P', 'I', sep, 'k', 'e', 'y'] + b, i));
        assert(api_key_at(a + seq!['a', 'p', 'i', sep, 'k', 'e', 'y'] + b, i));
    }
}

/// A failure with another status, and whose words hold no letter that both a key and authorization
/// are spelled with, is not about the credentials.
pub proof fn law_other_failures_are_not_rejections(status: Option<u16>, msg: Text)
    requires
        status != Some(401u16),
        forall|i: int| 0 <= i < msg.len() ==> #[trigger] msg[i] != 'a' && msg[i] != 'A',
    ensures
        !about_credentials(status, msg),
{
    assert forall|i: int| !(#[trigger] api_key_at(msg, i)) && !auth_at(msg, i) by {
        if 0 <= i < msg.len() {
            assert(msg[i] != 'a' && msg[i] != 'A');
        }
    }
}

/// A failure is told as the service put it, unless it is about the credentials: then the words name
/// the provider whose key to look at.
pub proof fn law_failures_are_told_in_full(label: Text, f: SendFailure)
    ensures
        !about_credentials(f.status, f.message@) ==> told_text(label, f) == f.message@,
        about_credentials(f.status, f.message@) ==> told_text(label, f) == rejected_text(label),
        begins(rejected_text(label), "Chat credentials rejected — check the "@ + label),
{
    let front = "Chat credentials rejected — check the "@ + label;
    law_beginnings_and_ends(front, " key (\u{2318}, \u{2192} Assistant) and try again."@);
    assert(rejected_text(label) =~= front + " key (\u{2318}, \u{2192} Assistant) and try again."@);
}

/// What is told at the end says of which request it is, whether it was given up, and what went
/// wrong.
pub proof fn law_endings_say_what_ended(id: Text, aborted: bool, error: Option<Text>)
    ensures
        done_entry(id, aborted, error).contains(("id"@, JsonView::Text(id))),
        done_entry(id, aborted, error).contains(("aborted"@, JsonView::Bool(aborted))),
        error matches Some(e) ==> done_entry(id, aborted, error).contains(("error"@, JsonView::Text(e))),
        error is None ==> done_entry(id, aborted, error).contains(("error"@, JsonView::Null)),
        done_entry(id, aborted, error).len() == 3,
{
    let o = done_entry(id, aborted, error);
    assert(o[0] == ("id"@, JsonView::Text(id)));
    assert(o[1] == ("aborted"@, JsonView::Bool(aborted)));
    assert(o[2] == ("error"@, text_or_null(error)));
}

/// A request goes to whoever speaks: it is talked in the voice that was chosen, with the older note
/// of that provider gone; one that nobody can answer says why, and one that ended well says no more.
pub proof fn law_requests_are_talked(notes: Map<Text, Text>, id: Text, speaker: Result<Speaker, String>, voice: Persona)
    ensures
        speaker matches Ok(s) ==> {
            &&& send_next(notes, id, speaker, voice, None).0 == SendStepView::Talk(voice)
            &&& !send_next(notes, id, speaker, voice, None).1.contains_key(s.id@)
            &&& send_next(notes, id, speaker, voice, Some(Ok(()))).0 is Done
            &&& send_next(notes, id, speaker, voice, Some(Ok(()))).1 == notes
        },
        speaker matches Err(why) ==> send_next(notes, id, speaker, voice, None) == (
            SendStepView::Tell(done_entry(id, false, Some(why@))),
            notes,
        ),
{
}

/// What is listed of the history are the entries of the logs that could be read, hold what is looked
/// for and come to something, and no others.
pub proof fn law_only_good_logs_are_listed(files: Seq<HistoryFile>, x: HistoryEntry)
    ensures
        listed_entries(files).contains(x) <==> exists|i: int|
            0 <= i < files.len() && (#[trigger] files[i]).is_log && files[i].readable && files[i].found && files[i].entry == Some(x),
    decreases files.len(),
{
    if files.len() > 0 {
        let front = files.drop_last();
        law_only_good_logs_are_listed(front, x);
        let before = listed_entries(front);
        let all = listed_entries(files);
        if all.contains(x) {
            let k = choose|k: int| 0 <= k < all.len() && all[k] == x;
            if k < before.len() {
                assert(before[k] == x);
                let i = choose|i: int|
                    0 <= i < front.len() && (#[trigger] front[i]).is_log && front[i].readable && front[i].found && front[i].entry == Some(x);
                assert(files[i] == front[i]);
            } else {
                assert(files[files.len() - 1].entry == Some(x));
            }
        }
        if exists|i: int|
            0 <= i < files.len() && (#[trigger] files[i]).is_log && files[i].readable && files[i].found && files[i].entry == Some(x) {
            let i = choose|i: int|
                0 <= i < files.len() && (#[trigger] files[i]).is_log && files[i].readable && files[i].found && files[i].entry == Some(x);
            if i < front.len() {
                assert(front[i] == files[i]);
                let k = choose|k: int| 0 <= k < before.len() && before[k] == x;
                assert(all[k] == x);
            } else {
                assert(all[before.len() as int] == x);
            }
        }
    }
}

/// The newest comes first: of two entries in the list, the one that stands before was not changed
/// earlier.
pub proof fn law_newer_talks_come_first(files: Seq<HistoryFile>, i: int, j: int)
    requires
        0 <= i < j < in_order(listed_entries(files)).len(),
    ensures
        in_order(listed_entries(files))[i].modified_ms >= in_order(listed_entries(files))[j].modified_ms,
{
    law_order_keeps_what_came(listed_entries(files));
    let v = in_order(listed_entries(files));
    assert(!v[j].ahead(v[i]));
}

}
