//! The decisions of the speech server's supervisor: its lifecycle, what a
//! speech response becomes, and how exported audio is prepared. Launching
//! the process, the HTTP calls and the save dialog stay with the caller.
use base64::engine::general_purpose::STANDARD as BASE64;
use base64::Engine;
use vstd::prelude::*;

verus! {

/// Standard base64 decoding of a string, where it is well formed.
pub uninterp spec fn base64_decoded(s: Seq<char>) -> Option<Seq<u8>>;

/// Relies on base64's STANDARD engine `decode`: the bytes that a padded
/// standard base64 string stands for, or its error's message.
#[verifier::external_body]
fn decode_base64(s: &str) -> (r: Result<Vec<u8>, String>)
    ensures
        r is Ok <==> base64_decoded(s@) is Some,
        r is Ok ==> r->Ok_0@ == base64_decoded(s@)->0,
{
    BASE64.decode(s).map_err(|e| e.to_string())
}

/// The states of the speech server.
#[derive(Clone, Copy, Debug, PartialEq, Eq, Structural)]
pub enum TtsStatus {
    Stopped,
    Starting,
    Ready,
    Error,
}

impl TtsStatus {
    pub open spec fn name_spec(self) -> Seq<char> {
        match self {
            TtsStatus::Stopped => "stopped"@,
            TtsStatus::Starting => "starting"@,
            TtsStatus::Ready => "ready"@,
            TtsStatus::Error => "error"@,
        }
    }

    /// The name the front end shows.
    pub fn name(&self) -> (r: &'static str)
        ensures
            r@ == self.name_spec(),
    {
        match self {
            TtsStatus::Stopped => "stopped",
            TtsStatus::Starting => "starting",
            TtsStatus::Ready => "ready",
            TtsStatus::Error => "error",
        }
    }
}

/// The supervisor's view of the server: whether a process of it is held,
/// and its state.
pub struct TtsState {
    pub running: bool,
    pub status: TtsStatus,
}

impl Default for TtsState {
    fn default() -> (r: Self)
        ensures
            !r.running,
            r.status == TtsStatus::Stopped,
    {
        TtsState { running: false, status: TtsStatus::Stopped }
    }
}

/// What a status request does next.
#[derive(Clone, Copy, Debug, PartialEq, Eq, Structural)]
pub enum TtsPoll {
    /// Answer with this state.
    Report(TtsStatus),
    /// Ask the server's health endpoint, then call `health_checked`.
    Ping,
}

impl TtsState {
    /// Whether a start request has to launch the server: a held process is
    /// left alone.
    pub fn needs_launch(&self) -> (r: bool)
        ensures
            r == !self.running,
    {
        !self.running
    }

    /// The server was launched: it is held and starting.
    pub fn launched(&mut self)
        ensures
            final(self).running,
            final(self).status == TtsStatus::Starting,
    {
        self.running = true;
        self.status = TtsStatus::Starting;
    }

    /// The server was stopped: nothing is held.
    pub fn stop(&mut self)
        ensures
            !final(self).running,
            final(self).status == TtsStatus::Stopped,
    {
        self.running = false;
        self.status = TtsStatus::Stopped;
    }

    /// A status request. `exited` tells whether the held process has ended;
    /// a server that ended on its own is in error. A starting server is
    /// asked for its health; any other state is reported as it is.
    pub fn poll(&mut self, exited: bool) -> (r: TtsPoll)
        ensures
            old(self).running && exited ==> (!final(self).running && final(self).status
                == TtsStatus::Error && r == TtsPoll::Report(TtsStatus::Error)),
            !(old(self).running && exited) ==> *final(self) == *old(self),
            !(old(self).running && exited) && old(self).running && old(self).status
                == TtsStatus::Starting ==> r == TtsPoll::Ping,
            !(old(self).running && exited) && !(old(self).running && old(self).status
                == TtsStatus::Starting) ==> r == TtsPoll::Report(old(self).status),
    {
        if self.running && exited {
            self.running = false;
            self.status = TtsStatus::Error;
            return TtsPoll::Report(TtsStatus::Error);
        }
        if self.running && matches!(self.status, TtsStatus::Starting) {
            TtsPoll::Ping
        } else {
            TtsPoll::Report(self.status)
        }
    }

    /// The answer of the health endpoint to a `Ping`: a healthy server is
    /// ready; otherwise it is still starting.
    pub fn health_checked(&mut self, healthy: bool) -> (r: TtsStatus)
        ensures
            healthy ==> final(self).status == TtsStatus::Ready && r == TtsStatus::Ready,
            healthy ==> final(self).running == old(self).running,
            !healthy ==> *final(self) == *old(self) && r == TtsStatus::Starting,
    {
        if healthy {
            self.status = TtsStatus::Ready;
            TtsStatus::Ready
        } else {
            TtsStatus::Starting
        }
    }

    /// Speech is asked for only of a ready server.
    pub fn ready_to_speak(&self) -> (r: Result<(), String>)
        ensures
            r is Ok <==> self.status == TtsStatus::Ready,
            r matches Err(e) ==> e@ == "TTS server is not ready"@,
    {
        if matches!(self.status, TtsStatus::Ready) {
            Ok(())
        } else {
            let e = String::from_str("TTS server is not ready");
            Err(e)
        }
    }
}

/// The view of an optional text.
pub open spec fn text_of(o: Option<&str>) -> Option<Seq<char>> {
    match o {
        Some(t) => Some(t@),
        None => None,
    }
}

pub open spec fn or_text(o: Option<Seq<char>>, d: Seq<char>) -> Seq<char> {
    match o {
        Some(t) => t,
        None => d,
    }
}

/// Whether `s` starts with `p`.
pub open spec fn has_prefix(s: Seq<char>, p: Seq<char>) -> bool {
    p.len() <= s.len() && s.take(p.len() as int) == p
}

fn starts_with(s: &str, p: &str) -> (r: bool)
    ensures
        r == has_prefix(s@, p@),
{
    let n = s.unicode_len();
    let m = p.unicode_len();
    if m > n {
        return false;
    }
    let mut i: usize = 0;
    while i < m
        invariant
            m <= n,
            n == s@.len(),
            m == p@.len(),
            i <= m,
            forall|k: int| 0 <= k < i ==> #[trigger] s@[k] == p@[k],
        decreases m - i,
    {
        if s.get_char(i) != p.get_char(i) {
            assert(s@.take(m as int)[i as int] != p@[i as int]);
            return false;
        }
        i = i + 1;
    }
    assert(s@.take(m as int) =~= p@);
    true
}

fn same_text(s: &str, t: &str) -> (r: bool)
    ensures
        r == (s@ == t@),
{
    let r = s.unicode_len() == t.unicode_len() && starts_with(s, t);
    proof {
        if s@.len() == t@.len() && has_prefix(s@, t@) {
            assert(s@ =~= s@.take(t@.len() as int));
        }
        if s@ == t@ {
            assert(s@.take(t@.len() as int) =~= t@);
        }
    }
    r
}

/// The engine a speech request names, `chattts` where it names none.
pub fn engine_or_default(engine: Option<String>) -> (r: String)
    ensures
        r@ == (match engine {
            Some(e) => e@,
            None => "chattts"@,
        }),
{
    match engine {
        Some(e) => e,
        None => String::from_str("chattts"),
    }
}

/// The message of a failed speech request.
pub open spec fn speech_error_message(
    status: Seq<char>,
    error: Option<Seq<char>>,
    traceback: Option<Seq<char>>,
) -> Seq<char> {
    let msg = "TTS server error ("@ + status + "): "@ + or_text(error, "Unknown error"@);
    let tb = or_text(traceback, ""@);
    if tb.len() == 0 {
        msg
    } else {
        msg + "\n\n"@ + tb
    }
}

/// The mime type of synthesized audio: MPEG for `mp3`, WAV otherwise.
pub open spec fn audio_mime_of(format: Option<Seq<char>>) -> Seq<char> {
    if format == Some("mp3"@) {
        "audio/mpeg"@
    } else {
        "audio/wav"@
    }
}

/// What a speech response becomes. `success` and `status` are the HTTP
/// outcome; the other arguments are the text fields of the response body.
/// A failure carries the server's error and traceback; a success needs the
/// audio, which is handed on as a `data:` URI.
pub fn speech_result(
    success: bool,
    status: &str,
    error: Option<&str>,
    traceback: Option<&str>,
    audio: Option<&str>,
    format: Option<&str>,
) -> (r: Result<String, String>)
    ensures
        !success ==> (r matches Err(e) && e@ == speech_error_message(
            status@,
            text_of(error),
            text_of(traceback),
        )),
        success && audio is None ==> (r matches Err(e) && e@ == "No audio field in TTS response"@),
        success && audio is Some ==> (r matches Ok(s) && s@ == "data:"@ + audio_mime_of(
            text_of(format),
        ) + ";base64,"@ + audio->0@),
{
    proof {
        reveal_strlit("TTS server error (");
        reveal_strlit("): ");
        reveal_strlit("Unknown error");
        reveal_strlit("");
        reveal_strlit("\n\n");
        reveal_strlit("data:");
        reveal_strlit(";base64,");
        reveal_strlit("mp3");
        reveal_strlit("audio/mpeg");
        reveal_strlit("audio/wav");
        reveal_strlit("No audio field in TTS response");
    }
    if !success {
        let error_msg = match error {
            Some(e) => e,
            None => "Unknown error",
        };
        let tb = match traceback {
            Some(t) => t,
            None => "",
        };
        let mut msg = String::from_str("TTS server error (");
        msg.append(status);
        msg.append("): ");
        msg.append(error_msg);
        if tb.unicode_len() > 0 {
            msg.append("\n\n");
            msg.append(tb);
        }
        return Err(msg);
    }
    let audio_b64 = match audio {
        Some(a) => a,
        None => {
            return Err(String::from_str("No audio field in TTS response"));
        },
    };
    let mime = match format {
        Some(f) => if same_text(f, "mp3") {
            "audio/mpeg"
        } else {
            "audio/wav"
        },
        None => "audio/wav",
    };
    let mut s = String::from_str("data:");
    s.append(mime);
    s.append(";base64,");
    s.append(audio_b64);
    Ok(s)
}

/// Audio ready to be saved: its bytes, and what the save dialog offers.
pub struct AudioExport {
    pub bytes: Vec<u8>,
    pub extension: String,
    pub filter_name: String,
    pub file_name: String,
}

/// The base64 payload, extension and filter name of an audio `data:` URI;
/// anything that is neither MPEG nor WAV is taken as bare WAV base64.
pub open spec fn audio_parts(uri: Seq<char>) -> (Seq<char>, Seq<char>, Seq<char>) {
    let mp3 = "data:audio/mpeg;base64,"@;
    let wav = "data:audio/wav;base64,"@;
    if has_prefix(uri, mp3) {
        (uri.skip(mp3.len() as int), "mp3"@, "MP3 Audio"@)
    } else if has_prefix(uri, wav) {
        (uri.skip(wav.len() as int), "wav"@, "WAV Audio"@)
    } else {
        (uri, "wav"@, "WAV Audio"@)
    }
}

/// Decodes an audio `data:` URI for saving, with the file type and the
/// suggested file name `tts_audio.<ext>`.
pub fn prepare_audio_export(uri: &str) -> (r: Result<AudioExport, String>)
    ensures
        r is Ok <==> base64_decoded(audio_parts(uri@).0) is Some,
        r matches Ok(x) ==> {
            &&& x.bytes@ == base64_decoded(audio_parts(uri@).0)->0
            &&& x.extension@ == audio_parts(uri@).1
            &&& x.filter_name@ == audio_parts(uri@).2
            &&& x.file_name@ == "tts_audio."@ + audio_parts(uri@).1
        },
        r matches Err(e) ==> has_prefix(e@, "Failed to decode audio: "@),
{
    proof {
        reveal_strlit("data:audio/mpeg;base64,");
        reveal_strlit("data:audio/wav;base64,");
        reveal_strlit("mp3");
        reveal_strlit("wav");
        reveal_strlit("MP3 Audio");
        reveal_strlit("WAV Audio");
        reveal_strlit("tts_audio.");
        reveal_strlit("Failed to decode audio: ");
    }
    let n = uri.unicode_len();
    let (b64, ext, filter_name) = if starts_with(uri, "data:audio/mpeg;base64,") {
        (uri.substring_char(23, n), "mp3", "MP3 Audio")
    } else if starts_with(uri, "data:audio/wav;base64,") {
        (uri.substring_char(22, n), "wav", "WAV Audio")
    } else {
        (uri, "wav", "WAV Audio")
    };
    assert(b64@ =~= audio_parts(uri@).0);
    match decode_base64(b64) {
        Ok(bytes) => {
            let mut file_name = String::from_str("tts_audio.");
            file_name.append(ext);
            Ok(
                AudioExport {
                    bytes,
                    extension: String::from_str(ext),
                    filter_name: String::from_str(filter_name),
                    file_name,
                },
            )
        },
        Err(e) => {
            let mut msg = String::from_str("Failed to decode audio: ");
            msg.append(e.as_str());
            assert(msg@.take(24) =~= "Failed to decode audio: "@);
            Err(msg)
        },
    }
}

} // verus!
