//! Discovery of WLCG bearer tokens.
//!
//! The search itself reads no variables and no files: it says what to read next, and is told
//! what was found there.
#[allow(unused_imports)]
use crate::header::{
    header_bytes, header_fields, header_is_sensitive, is_header_text, takes_another,
};
use crate::header::{authorization_name, set_header};
use crate::text::{push_decimal, trim};
#[allow(unused_imports)]
use crate::text::{decimal, trimmed};
use crate::user::current_uid;
use http::header::{HeaderMap, HeaderValue, InvalidHeaderValue};
use vstd::prelude::*;
#[allow(unused_imports)]
use vstd::utf8::encode_utf8;

verus! {

/// Token source
///
/// For use in discovery error reporting (only applicable to file sources)
#[derive(Clone, Copy, Debug, PartialEq, Eq, Structural)]
pub enum TokenSource {
    EnvBearerTokenFile,
    EnvXdgRuntimeDir,
    TmpDir,
}

impl TokenSource {
    /// The source in words.
    pub open spec fn text(self) -> Seq<char> {
        match self {
            TokenSource::EnvBearerTokenFile => "path specified in BEARER_TOKEN_FILE"@,
            TokenSource::EnvXdgRuntimeDir => "path specified in XDG_RUNTIME_DIR"@,
            TokenSource::TmpDir => "/tmp/bt_u<uid>"@,
        }
    }

    /// The source in words.
    pub fn describe(&self) -> (text: String)
        ensures
            text@ == self.text(),
    {
        match self {
            TokenSource::EnvBearerTokenFile => "path specified in BEARER_TOKEN_FILE".to_owned(),
            TokenSource::EnvXdgRuntimeDir => "path specified in XDG_RUNTIME_DIR".to_owned(),
            TokenSource::TmpDir => "/tmp/bt_u<uid>".to_owned(),
        }
    }
}

/// Token discovery error
#[derive(Debug)]
pub enum TokenDiscoveryError {
    NoTokenFound,
    FileReadError(TokenSource, std::io::Error),
}

impl TokenDiscoveryError {
    /// The error in words. What an error of the operating system says of itself is taken over.
    pub fn describe(&self) -> (text: String)
        ensures
            match self {
                TokenDiscoveryError::NoTokenFound => text@
                    == "No token found in environment or default locations"@,
                TokenDiscoveryError::FileReadError(source, error) => exists|detail: String|
                    #[trigger] vstd::string::to_string_from_display_ensures(error, detail) && text@
                        == "Failed to read token from "@ + source.text() + ": "@ + detail@,
            },
    {
        match self {
            TokenDiscoveryError::NoTokenFound => {
                "No token found in environment or default locations".to_owned()
            },
            TokenDiscoveryError::FileReadError(source, error) => {
                let detail = error.to_string();
                let text = "Failed to read token from ".to_owned().concat(
                    source.describe().as_str(),
                ).concat(": ").concat(detail.as_str());
                text
            },
        }
    }
}

/// What came of reading a file.
#[derive(Debug)]
pub enum FileRead {
    /// The file holds this text.
    Content(String),
    /// There is no such file.
    Missing,
    /// The file could not be read.
    Failed(std::io::Error),
}

/// What a `FileRead` stands for.
pub enum FileReadView {
    Content(Seq<char>),
    Missing,
    Failed(std::io::Error),
}

impl View for FileRead {
    type V = FileReadView;

    open spec fn view(&self) -> FileReadView {
        match self {
            FileRead::Content(text) => FileReadView::Content(text@),
            FileRead::Missing => FileReadView::Missing,
            FileRead::Failed(error) => FileReadView::Failed(*error),
        }
    }
}

/// Where a search for a token stands: what it has to read next.
#[derive(Clone, Debug)]
enum Stage {
    TokenVariable,
    TokenFileVariable,
    TokenFile(String),
    RuntimeDirVariable,
    RuntimeFile(String),
    TmpFile,
}

/// What a search for a token has to read next.
pub enum StageView {
    /// The variable `BEARER_TOKEN`.
    TokenVariable,
    /// The variable `BEARER_TOKEN_FILE`.
    TokenFileVariable,
    /// The file that `BEARER_TOKEN_FILE` names.
    TokenFile(Seq<char>),
    /// The variable `XDG_RUNTIME_DIR`.
    RuntimeDirVariable,
    /// The user's token file in the directory that `XDG_RUNTIME_DIR` names.
    RuntimeFile(Seq<char>),
    /// The user's token file in `/tmp`.
    TmpFile,
}

/// A search for a token.
#[derive(Clone, Debug)]
pub struct TokenSearch {
    uid: u32,
    stage: Stage,
}

/// What a `TokenSearch` stands for.
pub struct TokenSearchView {
    /// The user whose token is looked for.
    pub uid: nat,
    /// What to read next.
    pub stage: StageView,
}

/// What a search has to know next.
#[derive(Clone, Debug)]
pub enum TokenQuery {
    /// The value of an environment variable.
    Variable(String),
    /// The contents of a file.
    File(String),
}

/// What a `TokenQuery` stands for.
pub enum TokenQueryView {
    Variable(Seq<char>),
    File(Seq<char>),
}

impl View for TokenQuery {
    type V = TokenQueryView;

    open spec fn view(&self) -> TokenQueryView {
        match self {
            TokenQuery::Variable(name) => TokenQueryView::Variable(name@),
            TokenQuery::File(path) => TokenQueryView::File(path@),
        }
    }
}

/// What a search makes of an answer.
#[derive(Debug)]
pub enum TokenProgress {
    /// There is more to read.
    Continue(TokenSearch),
    /// The search is over.
    Done(Result<String, TokenDiscoveryError>),
}

/// What a `TokenProgress` stands for.
pub enum TokenProgressView {
    Continue(TokenSearchView),
    Done(Result<Seq<char>, TokenDiscoveryError>),
}

impl View for TokenSearch {
    type V = TokenSearchView;

    closed spec fn view(&self) -> TokenSearchView {
        TokenSearchView {
            uid: self.uid as nat,
            stage: match self.stage {
                Stage::TokenVariable => StageView::TokenVariable,
                Stage::TokenFileVariable => StageView::TokenFileVariable,
                Stage::TokenFile(path) => StageView::TokenFile(path@),
                Stage::RuntimeDirVariable => StageView::RuntimeDirVariable,
                Stage::RuntimeFile(path) => StageView::RuntimeFile(path@),
                Stage::TmpFile => StageView::TmpFile,
            },
        }
    }
}

/// A token or an error, with the token's text.
pub open spec fn discovery_view(found: Result<String, TokenDiscoveryError>) -> Result<
    Seq<char>,
    TokenDiscoveryError,
> {
    match found {
        Ok(token) => Ok(token@),
        Err(error) => Err(error),
    }
}

impl View for TokenProgress {
    type V = TokenProgressView;

    open spec fn view(&self) -> TokenProgressView {
        match self {
            TokenProgress::Continue(search) => TokenProgressView::Continue(search@),
            TokenProgress::Done(found) => TokenProgressView::Done(discovery_view(*found)),
        }
    }
}

/// The name of a user's token file.
pub open spec fn token_file_name(uid: nat) -> Seq<char> {
    "/bt_u"@ + decimal(uid)
}

impl TokenSearchView {
    /// The search for the token of user `uid`, before anything has been read.
    pub open spec fn initial(uid: nat) -> TokenSearchView {
        TokenSearchView { uid, stage: StageView::TokenVariable }
    }

    /// What the search has to know next.
    pub open spec fn query(self) -> TokenQueryView {
        match self.stage {
            StageView::TokenVariable => TokenQueryView::Variable("BEARER_TOKEN"@),
            StageView::TokenFileVariable => TokenQueryView::Variable("BEARER_TOKEN_FILE"@),
            StageView::TokenFile(path) => TokenQueryView::File(path),
            StageView::RuntimeDirVariable => TokenQueryView::Variable("XDG_RUNTIME_DIR"@),
            StageView::RuntimeFile(path) => TokenQueryView::File(path),
            StageView::TmpFile => TokenQueryView::File("/tmp"@ + token_file_name(self.uid)),
        }
    }

    /// The same search, one stage on.
    pub open spec fn at(self, stage: StageView) -> TokenProgressView {
        TokenProgressView::Continue(TokenSearchView { uid: self.uid, stage })
    }

    /// What the search makes of the value of the variable that it asked for.
    pub open spec fn after_variable(self, value: Option<Seq<char>>) -> TokenProgressView {
        match self.stage {
            StageView::TokenVariable => match value {
                Some(token) => TokenProgressView::Done(Ok(token)),
                None => self.at(StageView::TokenFileVariable),
            },
            StageView::TokenFileVariable => match value {
                Some(path) => self.at(StageView::TokenFile(path)),
                None => self.at(StageView::RuntimeDirVariable),
            },
            _ => match value {
                Some(dir) => self.at(StageView::RuntimeFile(dir + token_file_name(self.uid))),
                None => self.at(StageView::TmpFile),
            },
        }
    }

    /// The source of the file that the search asks for.
    pub open spec fn file_source(self) -> TokenSource {
        match self.stage {
            StageView::TokenFile(_) => TokenSource::EnvBearerTokenFile,
            StageView::RuntimeFile(_) => TokenSource::EnvXdgRuntimeDir,
            _ => TokenSource::TmpDir,
        }
    }

    /// What the search makes of the file that it asked for.
    pub open spec fn after_file(self, read: FileReadView) -> TokenProgressView {
        match read {
            FileReadView::Content(text) => TokenProgressView::Done(Ok(trimmed(text))),
            FileReadView::Failed(error) => TokenProgressView::Done(
                Err(TokenDiscoveryError::FileReadError(self.file_source(), error)),
            ),
            FileReadView::Missing => match self.stage {
                StageView::TokenFile(_) => self.at(StageView::RuntimeDirVariable),
                StageView::RuntimeFile(_) => self.at(StageView::TmpFile),
                _ => TokenProgressView::Done(Err(TokenDiscoveryError::NoTokenFound)),
            },
        }
    }
}

/// `dir` with the name of a user's token file behind it.
fn token_file_in(dir: &str, uid: u32) -> (path: String)
    ensures
        path@ == dir@ + token_file_name(uid as nat),
{
    let mut path = dir.to_owned();
    path.append("/bt_u");
    push_decimal(&mut path, uid as u64);
    assert(path@ =~= dir@ + token_file_name(uid as nat));
    path
}

impl TokenSearch {
    /// Starts the search for the token of the user that the program runs as.
    pub fn start() -> (search: TokenSearch)
        ensures
            search@ == TokenSearchView::initial(search@.uid),
    {
        TokenSearch::for_user(current_uid())
    }

    /// Starts the search for the token of user `uid`.
    pub fn for_user(uid: u32) -> (search: TokenSearch)
        ensures
            search@ == TokenSearchView::initial(uid as nat),
    {
        TokenSearch { uid, stage: Stage::TokenVariable }
    }

    /// What to read next.
    pub fn query(&self) -> (query: TokenQuery)
        ensures
            query@ == self@.query(),
    {
        match &self.stage {
            Stage::TokenVariable => TokenQuery::Variable("BEARER_TOKEN".to_owned()),
            Stage::TokenFileVariable => TokenQuery::Variable("BEARER_TOKEN_FILE".to_owned()),
            Stage::TokenFile(path) => TokenQuery::File(path.clone()),
            Stage::RuntimeDirVariable => TokenQuery::Variable("XDG_RUNTIME_DIR".to_owned()),
            Stage::RuntimeFile(path) => TokenQuery::File(path.clone()),
            Stage::TmpFile => TokenQuery::File(token_file_in("/tmp", self.uid)),
        }
    }

    /// Takes the value of the variable that was asked for, if it is set.
    pub fn on_variable(self, value: Option<String>) -> (progress: TokenProgress)
        requires
            self@.query() is Variable,
        ensures
            progress@ == self@.after_variable(
                match value {
                    Some(text) => Some(text@),
                    None => None,
                },
            ),
    {
        let uid: u32 = self.uid;
        match self.stage {
            Stage::TokenVariable => match value {
                Some(token) => TokenProgress::Done(Ok(token)),
                None => TokenProgress::Continue(
                    TokenSearch { uid, stage: Stage::TokenFileVariable },
                ),
            },
            Stage::TokenFileVariable => match value {
                Some(path) => TokenProgress::Continue(
                    TokenSearch { uid, stage: Stage::TokenFile(path) },
                ),
                None => TokenProgress::Continue(
                    TokenSearch { uid, stage: Stage::RuntimeDirVariable },
                ),
            },
            _ => match value {
                Some(dir) => TokenProgress::Continue(
                    TokenSearch {
                        uid,
                        stage: Stage::RuntimeFile(token_file_in(dir.as_str(), uid)),
                    },
                ),
                None => TokenProgress::Continue(TokenSearch { uid, stage: Stage::TmpFile }),
            },
        }
    }

    /// Takes what came of reading the file that was asked for.
    pub fn on_file(self, read: FileRead) -> (progress: TokenProgress)
        requires
            self@.query() is File,
        ensures
            progress@ == self@.after_file(read@),
    {
        let uid: u32 = self.uid;
        let (source, next) = match self.stage {
            Stage::TokenFile(_) => (
                TokenSource::EnvBearerTokenFile,
                Some(Stage::RuntimeDirVariable),
            ),
            Stage::RuntimeFile(_) => (TokenSource::EnvXdgRuntimeDir, Some(Stage::TmpFile)),
            _ => (TokenSource::TmpDir, None),
        };
        match read {
            FileRead::Content(text) => TokenProgress::Done(Ok(trim(text.as_str()))),
            FileRead::Failed(error) => TokenProgress::Done(
                Err(TokenDiscoveryError::FileReadError(source, error)),
            ),
            FileRead::Missing => match next {
                Some(stage) => TokenProgress::Continue(TokenSearch { uid, stage }),
                None => TokenProgress::Done(Err(TokenDiscoveryError::NoTokenFound)),
            },
        }
    }
}

/// Middleware for use with reqwest to inject the authorization token
#[derive(Debug)]
pub struct WLCGTokenAuthMiddleware {
    token: String,
}

impl View for WLCGTokenAuthMiddleware {
    type V = Seq<char>;

    closed spec fn view(&self) -> Seq<char> {
        self.token@
    }
}

impl WLCGTokenAuthMiddleware {
    /// The middleware for the token that a search came to, if it came to one.
    pub fn try_new(found: Result<String, TokenDiscoveryError>) -> (middleware: Result<
        WLCGTokenAuthMiddleware,
        TokenDiscoveryError,
    >)
        ensures
            match found {
                Ok(token) => middleware is Ok && middleware->Ok_0@ == token@,
                Err(error) => middleware == Err::<WLCGTokenAuthMiddleware, _>(error),
            },
    {
        match found {
            Ok(token) => Ok(WLCGTokenAuthMiddleware { token }),
            Err(error) => Err(error),
        }
    }

    /// The value of the Authorization header that goes with each request. There is none where
    /// the token holds a control character.
    pub fn authorization(&self) -> (value: Result<HeaderValue, InvalidHeaderValue>)
        ensures
            value is Ok <==> is_header_text(encode_utf8("Bearer "@ + self@)),
            value matches Ok(v) ==> {
                &&& header_bytes(v) == encode_utf8("Bearer "@ + self@)
                &&& header_is_sensitive(v)
            },
    {
        let text = "Bearer ".to_owned().concat(self.token.as_str());
        match HeaderValue::from_str(text.as_str()) {
            Ok(value) => {
                let mut value = value;
                value.set_sensitive(true);
                Ok(value)
            },
            Err(error) => Err(error),
        }
    }

    /// Puts the token into the headers of a request, in place of any authorization that they had.
    /// All other headers stay. Where there is an error, the headers stay as they are.
    pub fn authorize(&self, headers: &mut HeaderMap<HeaderValue>) -> (done: Result<
        (),
        AuthorizationError,
    >)
        ensures
            ({
                let credentials = encode_utf8("Bearer "@ + self@);
                let before = header_fields(*old(headers));
                let after = header_fields(*final(headers));
                match done {
                    Ok(_) => {
                        &&& is_header_text(credentials)
                        &&& after == before.insert("authorization"@, seq![(credentials, true)])
                    },
                    Err(AuthorizationError::Malformed(_)) => {
                        &&& !is_header_text(credentials)
                        &&& after == before
                    },
                    Err(AuthorizationError::TooManyHeaders) => {
                        &&& is_header_text(credentials)
                        &&& !takes_another(before)
                        &&& after == before
                    },
                }
            }),
    {
        match self.authorization() {
            Ok(value) => match set_header(headers, authorization_name(), value) {
                Ok(_) => Ok(()),
                Err(_) => Err(AuthorizationError::TooManyHeaders),
            },
            Err(error) => Err(AuthorizationError::Malformed(error)),
        }
    }
}

/// Why a request cannot be authorized.
#[derive(Debug)]
pub enum AuthorizationError {
    /// The token holds a control character.
    Malformed(InvalidHeaderValue),
    /// The headers have no room for another.
    TooManyHeaders,
}

/// Authorizing a request gives it one Authorization header, with the token, and changes no other
/// header. Doing it again, or with another token, leaves no trace of what was there before.
pub proof fn authorizing_changes_one_header(
    before: Map<Seq<char>, Seq<(Seq<u8>, bool)>>,
    earlier: Seq<(Seq<u8>, bool)>,
    credentials: Seq<u8>,
    name: Seq<char>,
)
    ensures
        ({
            let after = before.insert("authorization"@, seq![(credentials, true)]);
            &&& after["authorization"@] == seq![(credentials, true)]
            &&& name != "authorization"@ ==> (after.dom().contains(name)
                <==> before.dom().contains(name))
            &&& name != "authorization"@ && before.dom().contains(name) ==> after[name]
                == before[name]
            &&& before.insert("authorization"@, earlier).insert(
                "authorization"@,
                seq![(credentials, true)],
            ) == after
        }),
{
    assert(before.insert("authorization"@, earlier).insert(
        "authorization"@,
        seq![(credentials, true)],
    ) =~= before.insert("authorization"@, seq![(credentials, true)]));
}

/// What there is to be found: the environment variables that are set, and the outcome of
/// reading each file.
pub struct Surroundings {
    pub variables: Map<Seq<char>, Seq<char>>,
    pub files: spec_fn(Seq<char>) -> FileReadView,
}

impl Surroundings {
    /// The value of a variable, if it is set.
    pub open spec fn variable(self, name: Seq<char>) -> Option<Seq<char>> {
        if self.variables.dom().contains(name) {
            Some(self.variables[name])
        } else {
            None
        }
    }
}

/// How far a search is from its end.
pub open spec fn stages_left(stage: StageView) -> nat {
    match stage {
        StageView::TokenVariable => 5,
        StageView::TokenFileVariable => 4,
        StageView::TokenFile(_) => 3,
        StageView::RuntimeDirVariable => 2,
        StageView::RuntimeFile(_) => 1,
        StageView::TmpFile => 0,
    }
}

/// What a search comes to in given surroundings, when each thing that it asks for is read and
/// handed to it.
pub open spec fn search_outcome(search: TokenSearchView, around: Surroundings) -> Result<
    Seq<char>,
    TokenDiscoveryError,
>
    decreases stages_left(search.stage),
{
    let progress = match search.query() {
        TokenQueryView::Variable(name) => search.after_variable(around.variable(name)),
        TokenQueryView::File(path) => search.after_file((around.files)(path)),
    };
    match progress {
        TokenProgressView::Continue(next) => search_outcome(next, around),
        TokenProgressView::Done(found) => found,
    }
}

/// The token in the first of the files that exists.
pub open spec fn first_token(
    places: Seq<(TokenSource, Seq<char>)>,
    files: spec_fn(Seq<char>) -> FileReadView,
) -> Result<Seq<char>, TokenDiscoveryError>
    decreases places.len(),
{
    if places.len() == 0 {
        Err(TokenDiscoveryError::NoTokenFound)
    } else {
        match files(places[0].1) {
            FileReadView::Content(text) => Ok(trimmed(text)),
            FileReadView::Failed(error) => Err(
                TokenDiscoveryError::FileReadError(places[0].0, error),
            ),
            FileReadView::Missing => first_token(places.skip(1), files),
        }
    }
}

/// The files in which the token of user `uid` may lie, in the order in which they count.
pub open spec fn token_places(uid: nat, around: Surroundings) -> Seq<(TokenSource, Seq<char>)> {
    let named = match around.variable("BEARER_TOKEN_FILE"@) {
        Some(path) => seq![(TokenSource::EnvBearerTokenFile, path)],
        None => Seq::empty(),
    };
    let runtime = match around.variable("XDG_RUNTIME_DIR"@) {
        Some(dir) => seq![(TokenSource::EnvXdgRuntimeDir, dir + token_file_name(uid))],
        None => Seq::empty(),
    };
    named + runtime + seq![(TokenSource::TmpDir, "/tmp"@ + token_file_name(uid))]
}

/// A search finds the value of `BEARER_TOKEN`, as it is, where that is set. Otherwise it finds
/// the text, without white space around it, of the first that exists of the file that
/// `BEARER_TOKEN_FILE` names, the user's token file in the directory that `XDG_RUNTIME_DIR`
/// names, and the user's token file in `/tmp`. A file that exists and cannot be read ends the
/// search with an error that tells which of the three it is.
pub proof fn search_follows_procedure(uid: nat, around: Surroundings)
    ensures
        search_outcome(TokenSearchView::initial(uid), around) == match around.variable(
            "BEARER_TOKEN"@,
        ) {
            Some(token) => Ok(token),
            None => first_token(token_places(uid, around), around.files),
        },
{
    reveal_with_fuel(search_outcome, 7);
    reveal_with_fuel(first_token, 4);
    let places = token_places(uid, around);
    let tmp = (TokenSource::TmpDir, "/tmp"@ + token_file_name(uid));
    assert(places.last() == tmp);
    match (around.variable("BEARER_TOKEN_FILE"@), around.variable("XDG_RUNTIME_DIR"@)) {
        (Some(path), Some(dir)) => {
            let runtime = (TokenSource::EnvXdgRuntimeDir, dir + token_file_name(uid));
            assert(places =~= seq![(TokenSource::EnvBearerTokenFile, path), runtime, tmp]);
            assert(places.skip(1) =~= seq![runtime, tmp]);
            assert(places.skip(1).skip(1) =~= seq![tmp]);
            assert(places.skip(1).skip(1).skip(1).len() == 0);
        },
        (Some(path), None) => {
            assert(places =~= seq![(TokenSource::EnvBearerTokenFile, path), tmp]);
            assert(places.skip(1) =~= seq![tmp]);
            assert(places.skip(1).skip(1).len() == 0);
        },
        (None, Some(dir)) => {
            let runtime = (TokenSource::EnvXdgRuntimeDir, dir + token_file_name(uid));
            assert(places =~= seq![runtime, tmp]);
            assert(places.skip(1) =~= seq![tmp]);
            assert(places.skip(1).skip(1).len() == 0);
        },
        (None, None) => {
            assert(places =~= seq![tmp]);
            assert(places.skip(1).len() == 0);
        },
    }
}

/// A search asks for `BEARER_TOKEN` first and is over where that is set: the token is its value, as
/// it is. Otherwise it asks for `BEARER_TOKEN_FILE`.
pub proof fn search_takes_the_token_variable(uid: nat, value: Seq<char>)
    ensures
        ({
            let search = TokenSearchView::initial(uid);
            &&& search.query() == TokenQueryView::Variable("BEARER_TOKEN"@)
            &&& search.after_variable(Some(value)) == TokenProgressView::Done(Ok(value))
            &&& search.after_variable(None) is Continue
            &&& search.after_variable(None)->Continue_0.query() == TokenQueryView::Variable(
                "BEARER_TOKEN_FILE"@,
            )
        }),
{
}

/// The search where `BEARER_TOKEN` is not set.
pub open spec fn without_token_variable(uid: nat) -> TokenSearchView {
    TokenSearchView::initial(uid).after_variable(None)->Continue_0
}

/// Where `BEARER_TOKEN_FILE` is set, a search asks for the file that it names and is over where that
/// exists: the token is its text without white space around it, or there is an error that names the
/// source. Where the variable is not set or the file is missing, it asks for `XDG_RUNTIME_DIR`.
pub proof fn search_reads_the_token_file(
    uid: nat,
    path: Seq<char>,
    text: Seq<char>,
    error: std::io::Error,
)
    ensures
        ({
            let search = without_token_variable(uid).after_variable(Some(path))->Continue_0;
            &&& without_token_variable(uid).after_variable(Some(path)) is Continue
            &&& search.query() == TokenQueryView::File(path)
            &&& search.after_file(FileReadView::Content(text)) == TokenProgressView::Done(
                Ok(trimmed(text)),
            )
            &&& search.after_file(FileReadView::Failed(error)) == TokenProgressView::Done(
                Err(
                    TokenDiscoveryError::FileReadError(TokenSource::EnvBearerTokenFile, error),
                ),
            )
            &&& search.after_file(FileReadView::Missing) is Continue
            &&& search.after_file(FileReadView::Missing)->Continue_0.query()
                == TokenQueryView::Variable("XDG_RUNTIME_DIR"@)
            &&& without_token_variable(uid).after_variable(None) == search.after_file(
                FileReadView::Missing,
            )
        }),
{
}

/// Where `XDG_RUNTIME_DIR` is set, a search asks for the user's token file in the directory that it
/// names and is over where that exists, as with the file of `BEARER_TOKEN_FILE`. Where the variable
/// is not set or the file is missing, it asks for the user's token file in `/tmp`, and where that is
/// missing too there is no token.
pub proof fn search_reads_the_users_files(
    uid: nat,
    dir: Seq<char>,
    text: Seq<char>,
    error: std::io::Error,
)
    ensures
        ({
            let variable = without_token_variable(uid).after_variable(None)->Continue_0;
            let runtime = variable.after_variable(Some(dir))->Continue_0;
            let tmp = variable.after_variable(None)->Continue_0;
            &&& without_token_variable(uid).after_variable(None) is Continue
            &&& variable.after_variable(Some(dir)) is Continue
            &&& variable.after_variable(None) is Continue
            &&& runtime.query() == TokenQueryView::File(dir + ("/bt_u"@ + decimal(uid)))
            &&& runtime.after_file(FileReadView::Content(text)) == TokenProgressView::Done(
                Ok(trimmed(text)),
            )
            &&& runtime.after_file(FileReadView::Failed(error)) == TokenProgressView::Done(
                Err(TokenDiscoveryError::FileReadError(TokenSource::EnvXdgRuntimeDir, error)),
            )
            &&& runtime.after_file(FileReadView::Missing) == variable.after_variable(None)
            &&& tmp.query() == TokenQueryView::File("/tmp"@ + ("/bt_u"@ + decimal(uid)))
            &&& tmp.after_file(FileReadView::Content(text)) == TokenProgressView::Done(
                Ok(trimmed(text)),
            )
            &&& tmp.after_file(FileReadView::Failed(error)) == TokenProgressView::Done(
                Err(TokenDiscoveryError::FileReadError(TokenSource::TmpDir, error)),
            )
            &&& tmp.after_file(FileReadView::Missing) == TokenProgressView::Done(
                Err(TokenDiscoveryError::NoTokenFound),
            )
        }),
{
}

/// What a search asks for, is told and makes of it stands for the texts that it holds.
pub proof fn searches_stand_for_what_they_hold(
    text: String,
    error: std::io::Error,
    failure: TokenDiscoveryError,
    search: TokenSearch,
)
    ensures
        FileRead::Content(text)@ == FileReadView::Content(text@),
        FileRead::Missing@ == FileReadView::Missing,
        FileRead::Failed(error)@ == FileReadView::Failed(error),
        TokenQuery::Variable(text)@ == TokenQueryView::Variable(text@),
        TokenQuery::File(text)@ == TokenQueryView::File(text@),
        TokenProgress::Done(Ok(text))@ == TokenProgressView::Done(Ok(text@)),
        TokenProgress::Done(Err(failure))@ == TokenProgressView::Done(Err(failure)),
        TokenProgress::Continue(search)@ == TokenProgressView::Continue(search@),
        TokenSource::EnvBearerTokenFile.text() == "path specified in BEARER_TOKEN_FILE"@,
        TokenSource::EnvXdgRuntimeDir.text() == "path specified in XDG_RUNTIME_DIR"@,
        TokenSource::TmpDir.text() == "/tmp/bt_u<uid>"@,
{
}

} // verus!
