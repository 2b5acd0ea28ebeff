//! Speech to text: whether it can be used, by which engine, and what a recording is answered.

use vstd::prelude::*;
use vstd::string::*;

use crate::flow::graph::Text;
use crate::json::{as_text, Json, JsonView};
use crate::text::{join2, opt_text};

verus! {

/// The most bytes that a recording may have: about ten minutes.
pub const MAX_WAV: usize = 20_000_000;

/// The program that a variable names; an empty variable names none.
pub fn whisper_bin_override(var: Option<String>) -> (r: Option<String>)
    ensures
        opt_text(r) == match opt_text(var) {
            Some(v) => if v.len() > 0 {
                Some(v)
            } else {
                None
            },
            None => None,
        },
{
    match var {
        Some(v) => if v.unicode_len() > 0 {
            Some(v)
        } else {
            None
        },
        None => None,
    }
}

/// Whether to warm the engine up: off unless something but `false` is stored.
pub fn warmup_enabled(v: &Json) -> (r: bool)
    ensures
        r == !(v.model() == JsonView::Null || v.model() == JsonView::Bool(false)),
{
    match v {
        Json::Null => false,
        Json::Bool(b) => *b,
        _ => true,
    }
}

pub open spec fn preference(v: JsonView) -> Text {
    match as_text(v) {
        Some(s) => if s.len() > 0 {
            s
        } else {
            "auto"@
        },
        None => "auto"@,
    }
}

/// The engine that is asked for; `auto` where none is.
pub fn engine_preference(v: &Json) -> (r: String)
    ensures
        r@ == preference(v.model()),
{
    match v {
        Json::Text(s) => if s.unicode_len() > 0 {
            s.clone()
        } else {
            "auto".to_owned()
        },
        _ => "auto".to_owned(),
    }
}

/// How a transcription went.
pub enum Transcript {
    Text(String),
    /// The program was not found.
    NotFound,
    Failed(String),
}

/// A recording on its way to text.
pub enum TranscribeStep {
    /// Find out what is missing.
    Look,
    /// Transcribe it.
    Run,
    Text(String),
    Error(String),
}

pub enum TranscribeStepView {
    Look,
    Run,
    Text(Text),
    Error(Text),
}

impl View for TranscribeStep {
    type V = TranscribeStepView;

    open spec fn view(&self) -> TranscribeStepView {
        match self {
            TranscribeStep::Look => TranscribeStepView::Look,
            TranscribeStep::Run => TranscribeStepView::Run,
            TranscribeStep::Text(s) => TranscribeStepView::Text(s@),
            TranscribeStep::Error(e) => TranscribeStepView::Error(e@),
        }
    }
}

/// A recording of no length, or one too long to have been spoken, is refused before anything is
/// looked at; then nothing may be missing; then it is transcribed.
pub open spec fn transcribe_next(wav_len: nat, missing: Option<Option<Text>>, went: Option<Transcript>, no_bin: Text) -> TranscribeStepView {
    if wav_len == 0 || wav_len > 20_000_000 {
        TranscribeStepView::Error("stt: bad audio payload"@)
    } else {
        match missing {
            None => TranscribeStepView::Look,
            Some(Some(why)) => TranscribeStepView::Error(why),
            Some(None) => match went {
                None => TranscribeStepView::Run,
                Some(Transcript::Text(s)) => TranscribeStepView::Text(s@),
                Some(Transcript::NotFound) => TranscribeStepView::Error(no_bin),
                Some(Transcript::Failed(m)) => TranscribeStepView::Error("stt: "@ + m@),
            },
        }
    }
}

/// What to do next about a recording: `missing` says what is missing, where that is known, `went`
/// how transcribing went, and `no_bin` is the advice where the program is not there.
pub fn stt_transcribe(wav_len: usize, missing: Option<Option<String>>, went: Option<Transcript>, no_bin: &str) -> (r: TranscribeStep)
    ensures
        r@ == transcribe_next(
            wav_len as nat,
            match missing {
                Some(m) => Some(opt_text(m)),
                None => None,
            },
            went,
            no_bin@,
        ),
{
    if wav_len == 0 || wav_len > MAX_WAV {
        return TranscribeStep::Error("stt: bad audio payload".to_owned());
    }
    match missing {
        None => TranscribeStep::Look,
        Some(Some(why)) => TranscribeStep::Error(why),
        Some(None) => match went {
            None => TranscribeStep::Run,
            Some(Transcript::Text(s)) => TranscribeStep::Text(s),
            Some(Transcript::NotFound) => TranscribeStep::Error(no_bin.to_owned()),
            Some(Transcript::Failed(m)) => TranscribeStep::Error(join2("stt: ", &m)),
        },
    }
}

/// Whether the engine was warmed up: it was switched on, nothing was missing, and the run over
/// silence went well.
pub fn stt_warmup(stored: &Json, available: bool, ran: bool) -> (r: bool)
    ensures
        r == (!(stored.model() == JsonView::Null || stored.model() == JsonView::Bool(false)) && available && ran),
{
    warmup_enabled(stored) && available && ran
}

#[derive(PartialEq, Eq, Structural, Clone, Copy, Debug)]
pub enum Engine {
    Apple,
    Whisper,
}

/// Whether the engine can be used, and if not, why.
pub struct EngineStatus {
    pub ready: bool,
    pub why: Option<String>,
}

/// The engine can be used where what it needs is there.
pub open spec fn engine_ready(engine: Engine, apple: bool, whisper_why: Option<Text>) -> bool {
    match engine {
        Engine::Apple => apple,
        Engine::Whisper => whisper_why is None,
    }
}

pub open spec fn engine_why(engine: Engine, apple: bool, whisper_why: Option<Text>) -> Option<Text> {
    match engine {
        Engine::Apple => if apple {
            None
        } else {
            Some("On-device speech recognition is unavailable on this Mac."@)
        },
        Engine::Whisper => whisper_why,
    }
}

/// Whether the engine can be used; `whisper_why` says what the one engine lacks, where it lacks
/// anything.
pub fn stt_status(engine: Engine, apple_available: bool, whisper_why: Option<String>) -> (r: EngineStatus)
    ensures
        r.ready == engine_ready(engine, apple_available, opt_text(whisper_why)),
        opt_text(r.why) == engine_why(engine, apple_available, opt_text(whisper_why)),
{
    match engine {
        Engine::Apple => EngineStatus {
            ready: apple_available,
            why: if apple_available {
                None
            } else {
                Some("On-device speech recognition is unavailable on this Mac.".to_owned())
            },
        },
        Engine::Whisper => EngineStatus { ready: whisper_why.is_none(), why: whisper_why },
    }
}

/// The engine that was chosen: what was asked for, what it came to, and whether that can be used.
pub struct EngineChoice {
    pub preference: String,
    pub engine: Engine,
    pub available: bool,
}

/// What the choice of an engine came to.
pub fn stt_engine(stored: &Json, engine: Engine, apple_available: bool, whisper_ready: bool) -> (r: EngineChoice)
    ensures
        r.preference@ == preference(stored.model()),
        r.engine == engine,
        r.available == match engine {
            Engine::Apple => apple_available,
            Engine::Whisper => whisper_ready,
        },
{
    let available = match engine {
        Engine::Apple => apple_available,
        Engine::Whisper => whisper_ready,
    };
    EngineChoice { preference: engine_preference(stored), engine, available }
}

/// A recording that is no recording never reaches the engine, and no text comes back unless
/// nothing was missing.
pub proof fn law_bad_recordings_are_never_run(wav_len: nat, missing: Option<Option<Text>>, went: Option<Transcript>, no_bin: Text)
    ensures
        wav_len == 0 || wav_len > 20_000_000 ==> transcribe_next(wav_len, missing, went, no_bin) is Error,
        transcribe_next(wav_len, missing, went, no_bin) is Run || transcribe_next(wav_len, missing, went, no_bin) is Text ==> missing == Some(
            None::<Text>,
        ),
{
}

/// A reason is given exactly where the engine cannot be used.
pub proof fn law_a_reason_where_not_ready(engine: Engine, apple: bool, whisper_why: Option<Text>)
    ensures
        engine_ready(engine, apple, whisper_why) <==> engine_why(engine, apple, whisper_why) is None,
{
}

/// A preference that was stored is the one that is used, and nothing stored means that the choice is
/// left open.
pub proof fn law_preferences_are_kept(s: Text, v: JsonView)
    ensures
        s.len() > 0 ==> preference(JsonView::Text(s)) == s,
        s.len() == 0 ==> preference(JsonView::Text(s)) == "auto"@,
        !(v is Text) ==> preference(v) == "auto"@,
{
}

/// A good recording is transcribed: the engine is looked for, run once it was found, and what it
/// heard is the answer; a missing engine and a failed run say why.
pub proof fn law_good_recordings_are_transcribed(wav_len: nat, went: Option<Transcript>, why: Text, no_bin: Text)
    requires
        0 < wav_len <= 20_000_000,
    ensures
        transcribe_next(wav_len, None, went, no_bin) is Look,
        transcribe_next(wav_len, Some(Some(why)), went, no_bin) == TranscribeStepView::Error(why),
        went is None ==> transcribe_next(wav_len, Some(None), went, no_bin) is Run,
        went matches Some(Transcript::Text(s)) ==> transcribe_next(wav_len, Some(None), went, no_bin) == TranscribeStepView::Text(s@),
        went matches Some(Transcript::NotFound) ==> transcribe_next(wav_len, Some(None), went, no_bin) == TranscribeStepView::Error(no_bin),
        went matches Some(Transcript::Failed(m)) ==> transcribe_next(wav_len, Some(None), went, no_bin) == TranscribeStepView::Error(
            "stt: "@ + m@,
        ),
{
}

/// An engine is ready by what it alone needs: the one of the system where the system has it, the
/// other where nothing of it is missing, and neither by the other's state.
pub proof fn law_engines_stand_alone(apple: bool, whisper_why: Option<Text>, other_apple: bool, other_why: Option<Text>)
    ensures
        engine_ready(Engine::Apple, apple, whisper_why) == apple,
        engine_ready(Engine::Whisper, apple, whisper_why) == (whisper_why is None),
        engine_why(Engine::Apple, apple, whisper_why) == engine_why(Engine::Apple, apple, other_why),
        engine_why(Engine::Whisper, apple, whisper_why) == engine_why(Engine::Whisper, other_apple, whisper_why),
        engine_why(Engine::Whisper, apple, whisper_why) == whisper_why,
{
}

}
