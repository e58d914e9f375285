//! The identity table and the guard that decides, request by request, whether
//! a caller may proceed.
//!
//! Reads (`GET`) are never turned away; every other method needs a known
//! secret as soon as at least one identity is configured. A known secret is
//! resolved to its name on every method, so that the caller can be named in
//! the service's records.
use vstd::hash_map::StringHashMap;
use vstd::prelude::*;

verus! {

/// One identity record: a caller's name and the secret that stands for it.
#[derive(Clone, Debug)]
pub struct Token {
    pub name: String,
    pub token: String,
}

/// The identity table, indexed by secret.
pub struct TokenMap {
    map: StringHashMap<String>,
}

/// The method of a request, as far as the guard tells methods apart.
#[derive(Clone, Copy, Debug, PartialEq, Eq)]
pub enum Method {
    Get,
    Head,
    Post,
    Put,
    Delete,
    Connect,
    Options,
    Trace,
    Patch,
    Extension,
}

/// Why the guard turned a request away.
#[derive(Clone, Copy, Debug, PartialEq, Eq)]
pub enum AuthError {
    /// No credential came with a request that needs one.
    BadRequest,
    /// The credential's secret is not in the table.
    Unauthorized,
}

/// The mapping from secret to name that a list of records stands for: the
/// records are entered in order, so a later record replaces an earlier one
/// with the same secret.
pub open spec fn indexed(tokens: Seq<Token>) -> Map<Seq<char>, Seq<char>>
    decreases tokens.len(),
{
    if tokens.len() == 0 {
        Map::empty()
    } else {
        indexed(tokens.drop_last()).insert(tokens.last().token@, tokens.last().name@)
    }
}

/// The records that a source yields: its own when it could be read and
/// decoded, none otherwise.
pub open spec fn loaded(source: Option<Vec<Token>>) -> Seq<Token> {
    match source {
        Some(tokens) => tokens@,
        None => Seq::empty(),
    }
}

/// Whether a request passes whatever credential it carries.
pub open spec fn unguarded(tokens: Option<Map<Seq<char>, Seq<char>>>, method: Method) -> bool {
    match tokens {
        None => true,
        Some(table) => table.dom() =~= Set::empty() || method is Get,
    }
}

/// Whether the credential's secret is in the table.
pub open spec fn known(
    tokens: Option<Map<Seq<char>, Seq<char>>>,
    credentials: Option<Seq<char>>,
) -> bool {
    tokens is Some && credentials is Some && tokens.unwrap().contains_key(credentials.unwrap())
}

/// The guard's decision: the identity that the credential resolves to, no
/// identity where the request passes without one, or the reason for turning
/// it away.
pub open spec fn verdict(
    tokens: Option<Map<Seq<char>, Seq<char>>>,
    method: Method,
    credentials: Option<Seq<char>>,
) -> Result<Option<Seq<char>>, AuthError> {
    if known(tokens, credentials) {
        Ok(Some(tokens.unwrap()[credentials.unwrap()]))
    } else if unguarded(tokens, method) {
        Ok(None)
    } else if credentials is None {
        Err(AuthError::BadRequest)
    } else {
        Err(AuthError::Unauthorized)
    }
}

/// A decision with the identity taken as text.
pub open spec fn verdict_of(result: Result<Option<String>, AuthError>) -> Result<
    Option<Seq<char>>,
    AuthError,
> {
    match result {
        Ok(Some(name)) => Ok(Some(name@)),
        Ok(None) => Ok(None),
        Err(e) => Err(e),
    }
}

/// The table that the service was set up with, as a mapping.
pub open spec fn table_of(tokens: Option<&TokenMap>) -> Option<Map<Seq<char>, Seq<char>>> {
    match tokens {
        Some(table) => Some(table@),
        None => None,
    }
}

/// The secret that came with a request, as text.
pub open spec fn secret_of(credentials: Option<&str>) -> Option<Seq<char>> {
    match credentials {
        Some(secret) => Some(secret@),
        None => None,
    }
}

impl View for TokenMap {
    type V = Map<Seq<char>, Seq<char>>;

    closed spec fn view(&self) -> Map<Seq<char>, Seq<char>> {
        self.map@.map_values(|name: String| name@)
    }
}

impl TokenMap {
    /// A table without identities.
    pub fn new() -> (table: TokenMap)
        ensures
            table@ == Map::<Seq<char>, Seq<char>>::empty(),
    {
        let table = TokenMap { map: StringHashMap::new() };
        assert(table@ =~= Map::<Seq<char>, Seq<char>>::empty());
        table
    }

    /// Enters `name` under `secret`, in place of what stood there.
    pub fn insert(&mut self, secret: String, name: String)
        ensures
            final(self)@ == old(self)@.insert(secret@, name@),
    {
        self.map.insert(secret, name);
        assert(self@ =~= old(self)@.insert(secret@, name@));
    }

    /// The name entered under `secret`, if any.
    pub fn get(&self, secret: &str) -> (name: Option<&String>)
        ensures
            match name {
                Some(n) => self@.contains_key(secret@) && n@ == self@[secret@],
                None => !self@.contains_key(secret@),
            },
    {
        self.map.get(secret)
    }

    /// Whether the table holds no identity.
    pub fn is_empty(&self) -> (empty: bool)
        ensures
            empty == (self@.dom() =~= Set::empty()),
    {
        let empty = self.map.is_empty();
        proof {
            assert(self@.dom() =~= self.map@.dom());
            if empty {
                assert(self.map@.dom().len() == 0);
                self.map@.dom().lemma_len0_is_empty();
            }
        }
        empty
    }
}

impl Token {
    /// The records of an identity source. `source` is what reading and
    /// decoding the source gave; a source that failed either way yields no
    /// record.
    pub fn load(source: Option<Vec<Token>>) -> (tokens: Vec<Token>)
        ensures
            tokens@ == loaded(source),
    {
        match source {
            Some(tokens) => tokens,
            None => Vec::new(),
        }
    }

    /// The identity table of a source: its records, indexed by secret.
    pub fn load_map(source: Option<Vec<Token>>) -> (table: TokenMap)
        ensures
            table@ == indexed(loaded(source)),
    {
        let tokens = Token::load(source);
        let mut table = TokenMap::new();
        let mut i: usize = 0;
        while i < tokens.len()
            invariant
                i <= tokens.len(),
                table@ == indexed(tokens@.take(i as int)),
            decreases tokens.len() - i,
        {
            let record = &tokens[i];
            proof {
                let upto = tokens@.take(i + 1);
                assert(upto.drop_last() =~= tokens@.take(i as int));
                assert(upto.last() == tokens@[i as int]);
            }
            table.insert(record.token.clone(), record.name.clone());
            i = i + 1;
        }
        assert(tokens@.take(tokens.len() as int) =~= tokens@);
        table
    }
}

/// Decides whether a request may proceed. `tokens` is the identity table that
/// the service was set up with, if it was set up with one; `credentials` is
/// the secret that came with the request, if one came.
pub fn validator(tokens: Option<&TokenMap>, method: Method, credentials: Option<&str>) -> (result:
    Result<Option<String>, AuthError>)
    ensures
        verdict_of(result) == verdict(table_of(tokens), method, secret_of(credentials)),
{
    let table = match tokens {
        Some(table) => table,
        None => {
            return Ok(None);
        },
    };
    if let Some(secret) = credentials {
        if let Some(name) = table.get(secret) {
            return Ok(Some(name.clone()));
        }
    }
    let read = match method {
        Method::Get => true,
        _ => false,
    };
    if table.is_empty() || read {
        return Ok(None);
    }
    match credentials {
        None => Err(AuthError::BadRequest),
        Some(_) => Err(AuthError::Unauthorized),
    }
}

/// Every secret of a list of records is in its table, and no other.
pub proof fn indexed_secrets(tokens: Seq<Token>, secret: Seq<char>)
    ensures
        indexed(tokens).contains_key(secret) <==> exists|i: int|
            0 <= i < tokens.len() && #[trigger] tokens[i].token@ == secret,
    decreases tokens.len(),
{
    if tokens.len() > 0 {
        let before = tokens.drop_last();
        indexed_secrets(before, secret);
        if indexed(tokens).contains_key(secret) {
            if tokens.last().token@ == secret {
                assert(tokens[tokens.len() - 1].token@ == secret);
            } else {
                let i = choose|i: int| 0 <= i < before.len() && #[trigger] before[i].token@ == secret;
                assert(tokens[i].token@ == secret);
            }
        }
        if exists|i: int| 0 <= i < tokens.len() && #[trigger] tokens[i].token@ == secret {
            let i = choose|i: int| 0 <= i < tokens.len() && #[trigger] tokens[i].token@ == secret;
            if i < before.len() {
                assert(before[i].token@ == secret);
            }
        }
    }
}

/// Where two records share a secret, the later one decides: a secret
/// resolves to the name of the last record that holds it.
pub proof fn indexed_last_wins(tokens: Seq<Token>, i: int)
    requires
        0 <= i < tokens.len(),
        forall|j: int| i < j < tokens.len() ==> #[trigger] tokens[j].token@ != tokens[i].token@,
    ensures
        indexed(tokens).contains_key(tokens[i].token@),
        indexed(tokens)[tokens[i].token@] == tokens[i].name@,
    decreases tokens.len(),
{
    if i < tokens.len() - 1 {
        let before = tokens.drop_last();
        assert(tokens[tokens.len() - 1].token@ != tokens[i].token@);
        assert forall|j: int| i < j < before.len() implies #[trigger] before[j].token@
            != before[i].token@ by {
            assert(tokens[j].token@ != tokens[i].token@);
        }
        indexed_last_wins(before, i);
    }
}

/// A source that could not be read or decoded leaves the service open: every
/// request passes, whatever its method and credential.
pub proof fn failed_source_is_open(method: Method, credentials: Option<Seq<char>>)
    ensures
        indexed(loaded(None)) == Map::<Seq<char>, Seq<char>>::empty(),
        verdict(Some(indexed(loaded(None))), method, credentials) == Ok::<
            Option<Seq<char>>,
            AuthError,
        >(None),
{
}

/// Without identities every request passes, whatever its method and
/// credential.
pub proof fn empty_table_is_open(
    tokens: Option<Map<Seq<char>, Seq<char>>>,
    method: Method,
    credentials: Option<Seq<char>>,
)
    requires
        tokens is Some ==> tokens.unwrap() == Map::<Seq<char>, Seq<char>>::empty(),
    ensures
        verdict(tokens, method, credentials) == Ok::<Option<Seq<char>>, AuthError>(None),
{
}

/// A credential with a known secret passes on every method, and resolves to
/// the name entered under the secret.
pub proof fn known_secret_passes(table: Map<Seq<char>, Seq<char>>, method: Method, secret: Seq<char>)
    requires
        table.contains_key(secret),
    ensures
        verdict(Some(table), method, Some(secret)) == Ok::<Option<Seq<char>>, AuthError>(
            Some(table[secret]),
        ),
{
}

/// A read passes whatever it carries.
pub proof fn reads_pass(
    tokens: Option<Map<Seq<char>, Seq<char>>>,
    credentials: Option<Seq<char>>,
)
    ensures
        verdict(tokens, Method::Get, credentials) is Ok,
{
}

/// With identities configured, a request that is no read and comes without a
/// credential, or with a secret that is not in the table, is turned away.
pub proof fn unknown_or_missing_is_rejected(
    table: Map<Seq<char>, Seq<char>>,
    method: Method,
    credentials: Option<Seq<char>>,
)
    requires
        !(table.dom() =~= Set::empty()),
        !(method is Get),
        credentials is Some ==> !table.contains_key(credentials.unwrap()),
    ensures
        verdict(Some(table), method, credentials) == Err::<Option<Seq<char>>, AuthError>(
            if credentials is None {
                AuthError::BadRequest
            } else {
                AuthError::Unauthorized
            },
        ),
{
}

} // verus!
