//! The decisions around the local model server: which server and model to use, which model
//! the server offers, and how its streamed answer is cut into tokens.

use vstd::prelude::*;
use crate::text::{
    chars_of, append_str, append_chars, string_of, slice_chars, trim_chars, trim,
};
use crate::process::opt_text;
use crate::display::first_line_feed;

verus! {

/// What the model engine reports while it answers.
#[derive(Debug)]
pub enum AiEvent {
    Started,
    Token(String),
    Finished { ttft_ms: u128, tokens: usize },
    Error(String),
}

// ---------------------------------------------------------------------------------------------
// Trusted calls.

/// The characters of `bytes` decoded as UTF-8 with each invalid sequence replaced by U+FFFD.
pub uninterp spec fn utf8_lossy(bytes: Seq<u8>) -> Seq<char>;

/// The `content` text at `choices[0].delta.content` of the JSON document `json`, when `json`
/// parses and that member is a string.
pub uninterp spec fn json_delta_content(json: Seq<char>) -> Option<Seq<char>>;

/// Trusted: `String::from_utf8_lossy`. Its characters are a function of the bytes alone,
/// and there are no more of them than bytes, since every character, and every replacement
/// character, stands for at least one byte. Which characters they are is left to the name.
#[verifier::external_body]
fn decode_lossy(bytes: &[u8]) -> (res: Vec<char>)
    ensures
        res@ == utf8_lossy(bytes@),
        res@.len() <= bytes@.len(),
{
    String::from_utf8_lossy(bytes).chars().collect()
}

/// Trusted: `serde_json::from_str::<serde_json::Value>` followed by indexing
/// `["choices"][0]["delta"]["content"]` and `Value::as_str`. Indexing yields `Null` where a
/// member is missing or the value has another shape, so the call never panics; the result is
/// `None` when the text does not parse or the member is not a string. Which texts parse, and
/// to what, is left to the name.
#[verifier::external_body]
fn delta_content(json: &str) -> (res: Option<String>)
    ensures
        opt_text(res) == json_delta_content(json@),
{
    match serde_json::from_str::<serde_json::Value>(json) {
        Ok(value) => value["choices"][0]["delta"]["content"].as_str().map(String::from),
        Err(_) => None,
    }
}

// ---------------------------------------------------------------------------------------------
// Server settings.

/// Where the local server listens, which model is asked for, and what it is called on screen.
pub struct EngineSettings {
    pub base_url: String,
    pub configured_model: String,
    pub label: &'static str,
}

/// `s` without the slashes at its end.
pub open spec fn trim_end_slashes(s: Seq<char>) -> Seq<char>
    decreases s.len(),
{
    if s.len() > 0 && s.last() == '/' {
        trim_end_slashes(s.drop_last())
    } else {
        s
    }
}

/// The default address of the local server on macOS (Rapid-MLX) or elsewhere (llama-server).
pub open spec fn default_url(macos: bool) -> Seq<char> {
    if macos {
        "http://127.0.0.1:8000/v1"@
    } else {
        "http://127.0.0.1:8080/v1"@
    }
}

/// The default model on macOS or elsewhere.
pub open spec fn default_model(macos: bool) -> Seq<char> {
    if macos {
        "nail-qwen3.6-35b-a3b"@
    } else {
        "openbmb/MiniCPM5-1B-GGUF"@
    }
}

/// The name of the server on screen.
pub open spec fn server_label(macos: bool) -> Seq<char> {
    if macos {
        "Rapid-MLX"@
    } else {
        "llama-server"@
    }
}

fn trim_slashes(s: &str) -> (res: String)
    ensures
        res@ == trim_end_slashes(s@),
{
    let c = chars_of(s);
    let mut n: usize = c.len();
    assert(c@.take(n as int) =~= c@);
    while n > 0 && c[n - 1] == '/'
        invariant
            n <= c.len(),
            c@ == s@,
            trim_end_slashes(s@) == trim_end_slashes(c@.take(n as int)),
        decreases n,
    {
        assert(c@.take(n as int).drop_last() =~= c@.take(n - 1));
        n = n - 1;
    }
    let kept = slice_chars(&c, 0, n);
    assert(kept@ =~= c@.take(n as int));
    string_of(&kept)
}

/// The server settings from the environment: the URL and model that the user set (for
/// macOS `WHYTOP_MLX_URL` and `WHYTOP_MLX_MODEL`, elsewhere `WHYTOP_LLAMA_URL` and
/// `WHYTOP_LLAMA_MODEL`), else the platform's defaults; the URL loses its trailing slashes.
pub fn engine_settings(macos: bool, url: Option<String>, model: Option<String>) -> (res:
    EngineSettings)
    ensures
        res.base_url@ == trim_end_slashes(
            match url {
                Some(u) => u@,
                None => default_url(macos),
            },
        ),
        res.configured_model@ == match model {
            Some(m) => m@,
            None => default_model(macos),
        },
        res.label@ == server_label(macos),
{
    let url_text: String = match url {
        Some(u) => u,
        None => if macos {
            String::from_str("http://127.0.0.1:8000/v1")
        } else {
            String::from_str("http://127.0.0.1:8080/v1")
        },
    };
    let configured_model: String = match model {
        Some(m) => m,
        None => if macos {
            String::from_str("nail-qwen3.6-35b-a3b")
        } else {
            String::from_str("openbmb/MiniCPM5-1B-GGUF")
        },
    };
    let label: &'static str = if macos {
        "Rapid-MLX"
    } else {
        "llama-server"
    };
    EngineSettings { base_url: trim_slashes(url_text.as_str()), configured_model, label }
}

// ---------------------------------------------------------------------------------------------
// Model choice.

/// The models joined by ", ".
pub open spec fn model_list(models: Seq<Seq<char>>) -> Seq<char>
    decreases models.len(),
{
    if models.len() == 0 {
        Seq::empty()
    } else if models.len() == 1 {
        models[0]
    } else {
        model_list(models.drop_last()) + ", "@ + models.last()
    }
}

/// The message when the server does not offer a usable model.
pub open spec fn wrong_model_message(configured: Seq<char>, models: Seq<Seq<char>>) -> Seq<char> {
    "wrong model server model: expected "@ + configured + ", available: "@ + if models.len() == 0 {
        "none"@
    } else {
        model_list(models)
    }
}

/// The model to ask: the configured one when the server offers it; else the one model the
/// server offers, when it offers exactly one; else an error that names what it offers.
pub open spec fn model_choice(configured: Seq<char>, models: Seq<Seq<char>>) -> Result<
    Seq<char>,
    Seq<char>,
> {
    if models.contains(configured) {
        Ok(configured)
    } else if models.len() == 1 {
        Ok(models[0])
    } else {
        Err(wrong_model_message(configured, models))
    }
}

/// Chooses the model to ask among the ids that the server's model list holds.
pub fn select_model(configured: &str, available: &Vec<String>) -> (res: Result<String, String>)
    ensures
        match res {
            Ok(m) => model_choice(configured@, available.deep_view()) == Ok::<Seq<char>, Seq<char>>(m@),
            Err(e) => model_choice(configured@, available.deep_view()) == Err::<Seq<char>, Seq<char>>(e@),
        },
{
    let ghost models = available.deep_view();
    let mut i: usize = 0;
    while i < available.len()
        invariant
            i <= available.len(),
            models == available.deep_view(),
            forall|k: int| 0 <= k < i ==> models[k] != configured@,
        decreases available.len() - i,
    {
        let c = chars_of(configured);
        let a = chars_of(available[i].as_str());
        if crate::text::same_chars(&a, &c) {
            assert(models[i as int] == configured@);
            assert(models.contains(configured@));
            return Ok(String::from_str(configured));
        }
        i = i + 1;
    }
    assert(!models.contains(configured@));
    if available.len() == 1 {
        return Ok(available[0].clone());
    }
    let mut out: Vec<char> = chars_of("wrong model server model: expected ");
    append_str(&mut out, configured);
    append_str(&mut out, ", available: ");
    if available.len() == 0 {
        append_str(&mut out, "none");
    } else {
        let mut k: usize = 0;
        let mut list: Vec<char> = Vec::new();
        while k < available.len()
            invariant
                k <= available.len(),
                models == available.deep_view(),
                list@ == model_list(models.take(k as int)),
            decreases available.len() - k,
        {
            assert(models.take(k + 1).drop_last() =~= models.take(k as int));
            if k > 0 {
                append_str(&mut list, ", ");
            }
            append_str(&mut list, available[k].as_str());
            if k == 0 {
                assert(list@ =~= models.take(1)[0]);
            }
            k = k + 1;
        }
        assert(models.take(available.len() as int) =~= models);
        append_chars(&mut out, &list);
    }
    assert(out@ =~= wrong_model_message(configured@, models));
    Err(string_of(&out))
}


// ---------------------------------------------------------------------------------------------
// The streamed answer.

/// The complete lines of `text`, each with its line feed.
pub open spec fn complete_lines(text: Seq<char>) -> Seq<Seq<char>>
    decreases text.len(),
{
    let i = first_line_feed(text);
    if i >= text.len() {
        Seq::empty()
    } else {
        seq![text.take(i as int + 1)] + complete_lines(text.skip(i as int + 1))
    }
}

/// What follows the last line feed of `text`.
pub open spec fn after_last_line(text: Seq<char>) -> Seq<char>
    decreases text.len(),
{
    let i = first_line_feed(text);
    if i >= text.len() {
        text
    } else {
        after_last_line(text.skip(i as int + 1))
    }
}

/// Whether `s` begins with `p`.
pub open spec fn starts_with(s: Seq<char>, p: Seq<char>) -> bool {
    p.len() <= s.len() && s.take(p.len() as int) == p
}

/// The JSON payload of a server-sent event line: the trimmed text after `data:` in the
/// trimmed line, unless it is the end marker `[DONE]`.
pub open spec fn payload_of(line: Seq<char>) -> Option<Seq<char>> {
    let d = trim(line);
    if starts_with(d, "data:"@) {
        let j = trim(d.skip(5));
        if j == "[DONE]"@ {
            None
        } else {
            Some(j)
        }
    } else {
        None
    }
}

/// A token is a content text that is not empty.
pub open spec fn token_of(content: Option<Seq<char>>) -> Option<Seq<char>> {
    match content {
        Some(t) => if t.len() > 0 {
            Some(t)
        } else {
            None
        },
        None => None,
    }
}

/// The token that a line carries, if any.
pub open spec fn line_token(line: Seq<char>) -> Option<Seq<char>> {
    match payload_of(line) {
        Some(j) => token_of(json_delta_content(j)),
        None => None,
    }
}

/// The tokens of the lines, in order.
pub open spec fn tokens_of(lines: Seq<Seq<char>>) -> Seq<Seq<char>>
    decreases lines.len(),
{
    if lines.len() == 0 {
        Seq::empty()
    } else {
        let before = tokens_of(lines.drop_last());
        match line_token(lines.last()) {
            Some(t) => before.push(t),
            None => before,
        }
    }
}

fn char_seq_is(a: &Vec<char>, lit: &str) -> (res: bool)
    ensures
        res == (a@ == lit@),
{
    let b = chars_of(lit);
    crate::text::same_chars(a, &b)
}

/// The JSON payload of one line of the stream, or `None` when the line is no data line or
/// is the end marker.
pub fn data_payload(line: &str) -> (res: Option<String>)
    ensures
        opt_text(res) == payload_of(line@),
{
    proof {
        reveal_strlit("data:");
        reveal_strlit("[DONE]");
    }
    let all = chars_of(line);
    let d = trim_chars(&all);
    if d.len() < 5 {
        return None;
    }
    let head = slice_chars(&d, 0, 5);
    if !char_seq_is(&head, "data:") {
        assert(d@.take(5) =~= head@);
        return None;
    }
    assert(d@.take(5) =~= head@);
    let rest = slice_chars(&d, 5, d.len());
    assert(rest@ =~= d@.skip(5));
    let j = trim_chars(&rest);
    if char_seq_is(&j, "[DONE]") {
        None
    } else {
        Some(string_of(&j))
    }
}

/// The token for a content text that the server sent: the text, unless it is empty.
pub fn token_from_content(content: Option<String>) -> (res: Option<String>)
    ensures
        opt_text(res) == token_of(opt_text(content)),
{
    match content {
        Some(t) => if t.as_str().is_empty() {
            None
        } else {
            Some(t)
        },
        None => None,
    }
}

/// The token that one line of the stream carries.
fn token_in_line(line: &Vec<char>) -> (res: Option<String>)
    ensures
        opt_text(res) == line_token(line@),
{
    let text = string_of(line);
    match data_payload(text.as_str()) {
        Some(json) => token_from_content(delta_content(json.as_str())),
        None => None,
    }
}

/// The state of reading a streamed answer: the text after the last complete line, the
/// number of tokens so far, and when the first token came.
pub struct StreamDecoder {
    buffer: Vec<char>,
    count: usize,
    first_token_ms: Option<u128>,
}

impl StreamDecoder {
    /// The text received after the last line feed.
    pub closed spec fn pending(&self) -> Seq<char> {
        self.buffer@
    }

    /// The number of tokens handed out so far.
    pub closed spec fn token_count(&self) -> nat {
        self.count as nat
    }

    /// When the first token came, in milliseconds after the request started.
    pub closed spec fn first_token(&self) -> Option<u128> {
        self.first_token_ms
    }

    /// The pending text holds no line feed.
    pub closed spec fn wf(&self) -> bool {
        forall|i: int| 0 <= i < self.buffer@.len() ==> self.buffer@[i] != '\n'
    }

    /// A decoder that has seen nothing.
    pub fn new() -> (res: StreamDecoder)
        ensures
            res.wf(),
            res.pending() == Seq::<char>::empty(),
            res.token_count() == 0,
            res.first_token() is None,
    {
        StreamDecoder { buffer: Vec::new(), count: 0, first_token_ms: None }
    }

    /// The number of tokens handed out so far.
    pub fn tokens(&self) -> (res: usize)
        ensures
            res == self.token_count(),
    {
        self.count
    }

    fn feed_chars(&mut self, fresh: &Vec<char>, elapsed_ms: u128) -> (res: Vec<String>)
        requires
            old(self).wf(),
            old(self).token_count() + fresh@.len() <= usize::MAX,
        ensures
            final(self).wf(),
            final(self).token_count() <= old(self).token_count() + fresh@.len(),
            ({
                let text = old(self).pending() + fresh@;
                let tokens = tokens_of(complete_lines(text));
                &&& final(self).pending() == after_last_line(text)
                &&& res.deep_view() == tokens
                &&& final(self).token_count() == old(self).token_count() + tokens.len()
                &&& final(self).first_token() == if old(self).first_token() is None && tokens.len()
                    > 0 {
                    Some(elapsed_ms)
                } else {
                    old(self).first_token()
                }
            }),
    {
        let mut text: Vec<char> = Vec::new();
        std::mem::swap(&mut text, &mut self.buffer);
        let pend_len = text.len();
        let ghost pend = text@;
        append_chars(&mut text, fresh);
        let ghost whole = text@;
        let ghost old_count = self.count;
        let ghost old_first = self.first_token_ms;
        let mut tokens: Vec<String> = Vec::new();
        let mut start: usize = 0;
        let ghost mut done: Seq<Seq<char>> = Seq::empty();
        assert(whole.skip(0) =~= whole);
        loop
            invariant
                text@ == whole,
                whole == pend + fresh@,
                pend.len() == pend_len,
                forall|i: int| 0 <= i < pend_len ==> pend[i] != '\n',
                old_count + fresh@.len() <= usize::MAX,
                start <= text.len(),
                start == 0 || start > pend_len,
                start == 0 ==> done.len() == 0,
                self.count == old_count + tokens_of(done).len(),
                tokens_of(done).len() <= done.len(),
                done.len() <= if start == 0 { 0 } else { start - pend_len },
                complete_lines(whole) == done + complete_lines(whole.skip(start as int)),
                after_last_line(whole) == after_last_line(whole.skip(start as int)),
                tokens.deep_view() == tokens_of(done),
                self.first_token_ms == if old_first is None && tokens_of(done).len() > 0 {
                    Some(elapsed_ms)
                } else {
                    old_first
                },
            ensures
                start <= text.len(),
                forall|k: int| start <= k < text.len() ==> text@[k] != '\n',
            decreases text.len() - start,
        {
            let ghost rest = whole.skip(start as int);
            let mut j: usize = start;
            while j < text.len() && text[j] != '\n'
                invariant
                    start <= j <= text.len(),
                    forall|k: int| start <= k < j ==> text@[k] != '\n',
                decreases text.len() - j,
            {
                j = j + 1;
            }
            proof {
                assert forall|k: int| 0 <= k < j - start implies rest[k] != '\n' by {
                    assert(rest[k] == whole[start + k]);
                }
                if j < text.len() {
                    assert(rest[j - start] == whole[j as int]);
                }
                crate::display::lemma_first_line_feed(rest, j - start);
            }
            if j == text.len() {
                assert(forall|k: int| start <= k < text.len() ==> text@[k] != '\n');
                assert(complete_lines(rest) =~= Seq::<Seq<char>>::empty());
                assert(done + complete_lines(rest) =~= done);
                break;
            }
            proof {
                if start == 0 && pend_len > 0 {
                    assert(whole[j as int] == '\n');
                    if j < pend_len {
                        assert(whole[j as int] == pend[j as int]);
                    }
                }
            }
            let line = slice_chars(&text, start, j + 1);
            let found = token_in_line(&line);
            proof {
                assert(line@ =~= rest.take(j - start + 1));
                assert(rest.skip(j - start + 1) =~= whole.skip(j + 1));
                assert(complete_lines(rest) == seq![line@] + complete_lines(whole.skip(j + 1)));
                assert(done + complete_lines(rest) =~= done.push(line@) + complete_lines(
                    whole.skip(j + 1),
                ));
                assert(done.push(line@).drop_last() =~= done);
            }
            match found {
                Some(t) => {
                    let ghost before = tokens.deep_view();
                    tokens.push(t);
                    assert(tokens.deep_view() =~= before.push(t@));
                    self.count = self.count + 1;
                    if self.first_token_ms.is_none() {
                        self.first_token_ms = Some(elapsed_ms);
                    }
                },
                None => {},
            }
            proof {
                done = done.push(line@);
            }
            start = j + 1;
        }
        let rest = slice_chars(&text, start, text.len());
        proof {
            assert(rest@ =~= whole.skip(start as int));
            assert forall|k: int| 0 <= k < rest@.len() implies rest@[k] != '\n' by {
                assert(rest@[k] == whole[start + k]);
            }
            crate::display::lemma_first_line_feed(rest@, rest@.len() as int);
            assert(after_last_line(rest@) == rest@);
        }
        self.buffer = rest;
        tokens
    }

    /// Takes the next piece of the response text, `elapsed_ms` after the request started, and
    /// returns the tokens of the lines that it completes.
    pub fn feed_text(&mut self, text: &str, elapsed_ms: u128) -> (res: Vec<String>)
        requires
            old(self).wf(),
            old(self).token_count() + text@.len() <= usize::MAX,
        ensures
            final(self).wf(),
            final(self).token_count() <= old(self).token_count() + text@.len(),
            ({
                let all = old(self).pending() + text@;
                let tokens = tokens_of(complete_lines(all));
                &&& final(self).pending() == after_last_line(all)
                &&& res.deep_view() == tokens
                &&& final(self).token_count() == old(self).token_count() + tokens.len()
                &&& final(self).first_token() == if old(self).first_token() is None && tokens.len()
                    > 0 {
                    Some(elapsed_ms)
                } else {
                    old(self).first_token()
                }
            }),
    {
        let fresh = chars_of(text);
        self.feed_chars(&fresh, elapsed_ms)
    }

    /// Takes the next chunk of the response body, `elapsed_ms` after the request started, and
    /// returns the tokens of the lines that it completes.
    pub fn feed(&mut self, chunk: &[u8], elapsed_ms: u128) -> (res: Vec<String>)
        requires
            old(self).wf(),
            old(self).token_count() + chunk@.len() <= usize::MAX,
        ensures
            final(self).wf(),
            final(self).token_count() <= old(self).token_count() + chunk@.len(),
            ({
                let text = old(self).pending() + utf8_lossy(chunk@);
                let tokens = tokens_of(complete_lines(text));
                &&& final(self).pending() == after_last_line(text)
                &&& res.deep_view() == tokens
                &&& final(self).token_count() == old(self).token_count() + tokens.len()
                &&& final(self).first_token() == if old(self).first_token() is None && tokens.len()
                    > 0 {
                    Some(elapsed_ms)
                } else {
                    old(self).first_token()
                }
            }),
    {
        let fresh = decode_lossy(chunk);
        self.feed_chars(&fresh, elapsed_ms)
    }

    /// The event that ends an answer: when the first token came (or now, when none came) and
    /// how many tokens there were.
    pub fn finish(&self, elapsed_ms: u128) -> (res: AiEvent)
        ensures
            res == (AiEvent::Finished {
                ttft_ms: match self.first_token() {
                    Some(t) => t,
                    None => elapsed_ms,
                },
                tokens: self.token_count() as usize,
            }),
    {
        AiEvent::Finished {
            ttft_ms: match self.first_token_ms {
                Some(t) => t,
                None => elapsed_ms,
            },
            tokens: self.count,
        }
    }
}


// ---------------------------------------------------------------------------------------------
// Laws of the stream.

proof fn lemma_first_line_feed_concat(a: Seq<char>, b: Seq<char>)
    ensures
        first_line_feed(a) <= a.len(),
        first_line_feed(a) < a.len() ==> first_line_feed(a + b) == first_line_feed(a),
        first_line_feed(a) >= a.len() ==> first_line_feed(a + b) == a.len() + first_line_feed(b),
    decreases a.len(),
{
    if a.len() > 0 {
        assert((a + b)[0] == a[0]);
        assert((a + b).drop_first() =~= a.drop_first() + b);
        lemma_first_line_feed_concat(a.drop_first(), b);
    } else {
        assert(a + b =~= b);
    }
}

proof fn lemma_first_line_feed_bound(a: Seq<char>)
    ensures
        first_line_feed(a) <= a.len(),
    decreases a.len(),
{
    if a.len() > 0 {
        lemma_first_line_feed_bound(a.drop_first());
    }
}

/// Cutting a stream anywhere changes nothing: the complete lines of the first part, then the
/// complete lines of what it leaves pending followed by the second part, are the complete
/// lines of the whole, and the same text is left pending.
pub proof fn lemma_lines_split_anywhere(a: Seq<char>, b: Seq<char>)
    ensures
        complete_lines(a) + complete_lines(after_last_line(a) + b) == complete_lines(a + b),
        after_last_line(after_last_line(a) + b) == after_last_line(a + b),
    decreases a.len(),
{
    lemma_first_line_feed_concat(a, b);
    let i = first_line_feed(a);
    if i >= a.len() {
        assert(complete_lines(a) =~= Seq::<Seq<char>>::empty());
        assert(after_last_line(a) == a);
        assert(Seq::<Seq<char>>::empty() + complete_lines(a + b) =~= complete_lines(a + b));
    } else {
        let rest = a.skip(i as int + 1);
        lemma_lines_split_anywhere(rest, b);
        assert((a + b).take(i as int + 1) =~= a.take(i as int + 1));
        assert((a + b).skip(i as int + 1) =~= rest + b);
        lemma_first_line_feed_bound(a + b);
        assert(complete_lines(a + b) == seq![a.take(i as int + 1)] + complete_lines(rest + b));
        assert(complete_lines(a) == seq![a.take(i as int + 1)] + complete_lines(rest));
        assert(complete_lines(a) + complete_lines(after_last_line(a) + b) =~= seq![a.take(i as int + 1)]
            + (complete_lines(rest) + complete_lines(after_last_line(rest) + b)));
    }
}

/// The tokens of two runs of lines are the tokens of each, in order.
pub proof fn lemma_tokens_concat(x: Seq<Seq<char>>, y: Seq<Seq<char>>)
    ensures
        tokens_of(x + y) == tokens_of(x) + tokens_of(y),
    decreases y.len(),
{
    if y.len() == 0 {
        assert(x + y =~= x);
        assert(tokens_of(x) + tokens_of(y) =~= tokens_of(x));
    } else {
        assert((x + y).drop_last() =~= x + y.drop_last());
        assert((x + y).last() == y.last());
        lemma_tokens_concat(x, y.drop_last());
        match line_token(y.last()) {
            Some(t) => {
                assert(tokens_of(x) + tokens_of(y) =~= (tokens_of(x) + tokens_of(y.drop_last())).push(t));
            },
            None => {},
        }
    }
}

/// Feeding text in two parts hands out the same tokens, in the same order, and leaves the
/// same text pending as feeding it at once: a token does not depend on where the network cut
/// the stream.
pub proof fn lemma_stream_cut_anywhere(pending: Seq<char>, x: Seq<char>, y: Seq<char>)
    ensures
        tokens_of(complete_lines(pending + x)) + tokens_of(
            complete_lines(after_last_line(pending + x) + y),
        ) == tokens_of(complete_lines(pending + x + y)),
        after_last_line(after_last_line(pending + x) + y) == after_last_line(pending + x + y),
{
    lemma_lines_split_anywhere(pending + x, y);
    lemma_tokens_concat(
        complete_lines(pending + x),
        complete_lines(after_last_line(pending + x) + y),
    );
}

/// A content text that the server sends is handed out as a token exactly when it is not
/// empty: a line feed, a paragraph break or a lone space is a token like any other text.
pub proof fn lemma_only_empty_content_is_dropped(t: Seq<char>)
    ensures
        t.len() > 0 ==> token_of(Some(t)) == Some(t),
        t.len() == 0 ==> token_of(Some(t)) is None,
        token_of(None) is None,
{
}

/// A data line whose JSON payload carries a non-empty content text yields exactly that text,
/// and a stream of that one line yields it as its only token.
pub proof fn lemma_data_line_yields_its_content(line: Seq<char>, json: Seq<char>, t: Seq<char>)
    requires
        payload_of(line) == Some(json),
        json_delta_content(json) == Some(t),
        t.len() > 0,
    ensures
        line_token(line) == Some(t),
        tokens_of(seq![line]) == seq![t],
{
    let one = seq![line];
    assert(one.drop_last() =~= Seq::<Seq<char>>::empty());
    assert(one.last() == line);
    assert(tokens_of(one.drop_last()) == Seq::<Seq<char>>::empty());
    assert(tokens_of(one) == tokens_of(one.drop_last()).push(t));
    assert(Seq::<Seq<char>>::empty().push(t) =~= seq![t]);
}

/// The tokens of lines that each carry a token are those tokens, one per line, in order.
pub proof fn lemma_each_content_line_is_one_token(lines: Seq<Seq<char>>)
    requires
        forall|i: int| 0 <= i < lines.len() ==> (#[trigger] line_token(lines[i])) is Some,
    ensures
        tokens_of(lines).len() == lines.len(),
        forall|i: int|
            0 <= i < lines.len() ==> Some(#[trigger] tokens_of(lines)[i]) == line_token(lines[i]),
    decreases lines.len(),
{
    if lines.len() > 0 {
        let init = lines.drop_last();
        assert forall|i: int| 0 <= i < init.len() implies (#[trigger] line_token(init[i])) is Some by {
            assert(init[i] == lines[i]);
        }
        lemma_each_content_line_is_one_token(init);
        assert(line_token(lines[lines.len() - 1]) is Some);
        assert forall|i: int| 0 <= i < lines.len() implies Some(#[trigger] tokens_of(lines)[i])
            == line_token(lines[i]) by {
            if i < lines.len() - 1 {
                assert(init[i] == lines[i]);
                assert(tokens_of(init)[i] == tokens_of(lines)[i]);
            }
        }
    }
}

/// The configured model is chosen whenever the server offers it, wherever it stands in the
/// list; any model chosen is one that the server offers; and there is an error only when the
/// configured model is not offered and the server offers other than exactly one model.
pub proof fn lemma_model_choice(configured: Seq<char>, models: Seq<Seq<char>>)
    ensures
        models.contains(configured) ==> model_choice(configured, models) == Ok::<
            Seq<char>,
            Seq<char>,
        >(configured),
        model_choice(configured, models) matches Ok(m) ==> models.contains(m),
        model_choice(configured, models) is Err <==> (!models.contains(configured) && models.len()
            != 1),
        !models.contains(configured) && models.len() == 1 ==> model_choice(configured, models)
            == Ok::<Seq<char>, Seq<char>>(models[0]),
{
    if !models.contains(configured) && models.len() == 1 {
        assert(models.contains(models[0]));
    }
}

} // verus!
