//! What the foreign interface decides: handles, staged values and result codes.

use std::collections::HashMap;

use vstd::prelude::*;
use vstd::string::*;

use crate::client::config::{client_table, read_config, ConfigModel};
use crate::client::platform::{outcome, Platform};
use crate::client::{client_text, Client, ClientError, ClientFault};
use crate::engine::config::{
    document_reading, json_reading, parse_document, parse_json, yaml_reading, DocModel, Document,
};
use crate::engine::{core_text, CoreError, CoreFault};
use crate::text::joined;

pub mod calls;
pub mod staging;

verus! {

/// Name of a client or server outside; 0 is none.
pub type AetherHandle = usize;

/// The banner of the library.
pub const VERSION: &'static str = "AetherLink 1.5.0";

/// Result codes.
#[derive(Clone, Copy, Debug, PartialEq, Eq, Structural)]
pub enum AetherError {
    Success,
    InvalidHandle,
    InvalidConfig,
    AlreadyRunning,
    NotRunning,
    NetworkError,
    DnsError,
    AuthError,
    InternalError,
    InvalidArgument,
    PermissionDenied,
}

impl AetherError {
    /// The number of a code.
    pub open spec fn spec_code(self) -> int {
        match self {
            AetherError::Success => 0int,
            AetherError::InvalidHandle => -1,
            AetherError::InvalidConfig => -2,
            AetherError::AlreadyRunning => -3,
            AetherError::NotRunning => -4,
            AetherError::NetworkError => -5,
            AetherError::DnsError => -6,
            AetherError::AuthError => -7,
            AetherError::InternalError => -8,
            AetherError::InvalidArgument => -9,
            AetherError::PermissionDenied => -10,
        }
    }

    /// The number of a code.
    pub fn code(self) -> (r: i32)
        ensures
            r == self.spec_code(),
    {
        match self {
            AetherError::Success => 0,
            AetherError::InvalidHandle => -1,
            AetherError::InvalidConfig => -2,
            AetherError::AlreadyRunning => -3,
            AetherError::NotRunning => -4,
            AetherError::NetworkError => -5,
            AetherError::DnsError => -6,
            AetherError::AuthError => -7,
            AetherError::InternalError => -8,
            AetherError::InvalidArgument => -9,
            AetherError::PermissionDenied => -10,
        }
    }
}

/// No two codes have the same number.
pub proof fn codes_are_distinct(a: AetherError, b: AetherError)
    requires
        a.spec_code() == b.spec_code(),
    ensures
        a == b,
{
}

/// Clients and servers by handle. Handles count up from 1.
pub struct HandleMap<C, S> {
    clients: HashMap<usize, C>,
    servers: HashMap<usize, S>,
    next_id: usize,
}

/// What a [`HandleMap`] holds.
#[verifier::reject_recursive_types(C)]
#[verifier::reject_recursive_types(S)]
pub struct HandleModel<C, S> {
    pub clients: Map<usize, C>,
    pub servers: Map<usize, S>,
    pub next_id: usize,
}

impl<C, S> HandleMap<C, S> {
    /// What the table holds.
    pub closed spec fn model(&self) -> HandleModel<C, S> {
        HandleModel {
            clients: self.clients@,
            servers: self.servers@,
            next_id: self.next_id,
        }
    }

    /// Whether every handle was handed out.
    pub open spec fn wf(&self) -> bool {
        &&& self.model().next_id > 0
        &&& forall|h: usize| #[trigger]
            self.model().clients.contains_key(h) ==> 0 < h < self.model().next_id
        &&& forall|h: usize| #[trigger]
            self.model().servers.contains_key(h) ==> 0 < h < self.model().next_id
    }

    /// A table without entries.
    pub fn new() -> (r: Self)
        ensures
            r.wf(),
            r.model().clients == Map::<usize, C>::empty(),
            r.model().servers == Map::<usize, S>::empty(),
            r.model().next_id == 1,
    {
        broadcast use vstd::std_specs::hash::group_hash_axioms;

        HandleMap { clients: HashMap::new(), servers: HashMap::new(), next_id: 1 }
    }

    /// Whether there is a handle left to hand out.
    pub fn has_room(&self) -> (r: bool)
        ensures
            r == (self.model().next_id < usize::MAX),
    {
        self.next_id < usize::MAX
    }

    /// Takes in a client and gives its handle, which nothing had before.
    pub fn insert_client(&mut self, client: C) -> (r: usize)
        requires
            old(self).wf(),
            old(self).model().next_id < usize::MAX,
        ensures
            final(self).wf(),
            r == old(self).model().next_id,
            !old(self).model().clients.contains_key(r),
            !old(self).model().servers.contains_key(r),
            final(self).model() == (HandleModel {
                clients: old(self).model().clients.insert(r, client),
                next_id: (r + 1) as usize,
                ..old(self).model()
            }),
    {
        broadcast use vstd::std_specs::hash::group_hash_axioms;

        let id: usize = self.next_id;
        self.next_id = id + 1;
        self.clients.insert(id, client);
        id
    }

    /// Takes in a server and gives its handle, which nothing had before.
    pub fn insert_server(&mut self, server: S) -> (r: usize)
        requires
            old(self).wf(),
            old(self).model().next_id < usize::MAX,
        ensures
            final(self).wf(),
            r == old(self).model().next_id,
            !old(self).model().clients.contains_key(r),
            !old(self).model().servers.contains_key(r),
            final(self).model() == (HandleModel {
                servers: old(self).model().servers.insert(r, server),
                next_id: (r + 1) as usize,
                ..old(self).model()
            }),
    {
        broadcast use vstd::std_specs::hash::group_hash_axioms;

        let id: usize = self.next_id;
        self.next_id = id + 1;
        self.servers.insert(id, server);
        id
    }

    /// Whether a handle is that of a client.
    pub fn client_exists(&self, handle: usize) -> (r: bool)
        ensures
            r == self.model().clients.contains_key(handle),
    {
        broadcast use vstd::std_specs::hash::group_hash_axioms;

        self.clients.contains_key(&handle)
    }

    /// The client of a handle.
    pub fn get_client(&self, handle: usize) -> (r: Option<&C>)
        ensures
            match r {
                Some(c) => self.model().clients.contains_key(handle) && *c
                    == self.model().clients[handle],
                None => !self.model().clients.contains_key(handle),
            },
    {
        broadcast use vstd::std_specs::hash::group_hash_axioms;

        self.clients.get(&handle)
    }

    /// Takes the client of a handle out.
    pub fn remove_client(&mut self, handle: usize) -> (r: Option<C>)
        requires
            old(self).wf(),
        ensures
            final(self).wf(),
            final(self).model() == (HandleModel {
                clients: old(self).model().clients.remove(handle),
                ..old(self).model()
            }),
            match r {
                Some(c) => old(self).model().clients.contains_key(handle) && c == old(
                    self,
                ).model().clients[handle],
                None => !old(self).model().clients.contains_key(handle),
            },
    {
        broadcast use vstd::std_specs::hash::group_hash_axioms;

        let r = self.clients.remove(&handle);
        assert(self.model().clients =~= old(self).model().clients.remove(handle));
        r
    }

    /// Puts a client back under a handle that was handed out.
    pub fn put_client(&mut self, handle: usize, client: C)
        requires
            old(self).wf(),
            0 < handle < old(self).model().next_id,
        ensures
            final(self).wf(),
            final(self).model() == (HandleModel {
                clients: old(self).model().clients.insert(handle, client),
                ..old(self).model()
            }),
    {
        broadcast use vstd::std_specs::hash::group_hash_axioms;

        self.clients.insert(handle, client);
    }

    /// Takes the server of a handle out.
    pub fn remove_server(&mut self, handle: usize) -> (r: Option<S>)
        requires
            old(self).wf(),
        ensures
            final(self).wf(),
            final(self).model() == (HandleModel {
                servers: old(self).model().servers.remove(handle),
                ..old(self).model()
            }),
            match r {
                Some(s) => old(self).model().servers.contains_key(handle) && s == old(
                    self,
                ).model().servers[handle],
                None => !old(self).model().servers.contains_key(handle),
            },
    {
        broadcast use vstd::std_specs::hash::group_hash_axioms;

        let r = self.servers.remove(&handle);
        assert(self.model().servers =~= old(self).model().servers.remove(handle));
        r
    }
}

/// The last error of a thread.
pub struct LastError {
    text: String,
}

impl LastError {
    /// What went wrong last.
    pub closed spec fn spec_text(&self) -> Seq<char> {
        self.text@
    }

    /// Before anything went wrong.
    pub fn new() -> (r: Self)
        ensures
            r.spec_text() == Seq::<char>::empty(),
    {
        let r = LastError { text: String::new() };
        assert(r.spec_text() =~= Seq::<char>::empty());
        r
    }

    /// Takes note of what went wrong.
    pub fn set_last_error(&mut self, msg: &str)
        ensures
            final(self).spec_text() == msg@,
    {
        self.text = msg.to_owned();
    }

    /// What went wrong last, if anything did.
    pub fn last_error(&self) -> (r: Option<&str>)
        ensures
            match r {
                Some(s) => s@ == self.spec_text() && s@.len() > 0,
                None => self.spec_text().len() == 0,
            },
    {
        if self.text.as_str().is_empty() {
            None
        } else {
            Some(self.text.as_str())
        }
    }
}

/// What a call came to: a code, and what is noted as the last error.
pub struct Outcome {
    pub code: AetherError,
    pub error: Option<String>,
}

impl Outcome {
    /// Whether this is a code with a note.
    pub open spec fn says(self, code: AetherError, error: Option<Seq<char>>) -> bool {
        &&& self.code == code
        &&& match (self.error, error) {
            (Some(s), Some(m)) => s@ == m,
            (None, None) => true,
            _ => false,
        }
    }
}

/// The outcome of a call that went through.
pub fn success() -> (r: Outcome)
    ensures
        r.says(AetherError::Success, None),
{
    Outcome { code: AetherError::Success, error: None }
}

/// The outcome of a call that failed.
pub fn failure(code: AetherError, error: &str) -> (r: Outcome)
    ensures
        r.says(code, Some(error@)),
{
    Outcome { code, error: Some(error.to_owned()) }
}

/// Whether an outcome tells what a call on a client came to: `what` begins the note
/// of a failure, and `code` is its code.
pub open spec fn tells(
    o: Outcome,
    done: Result<(), ClientFault>,
    what: Seq<char>,
    code: AetherError,
) -> bool {
    match done {
        Ok(_) => o.says(AetherError::Success, None),
        Err(fault) => o.says(code, Some(what + " failed: "@ + client_text(fault))),
    }
}

/// The outcome of a call on a client.
pub fn client_outcome(done: Result<(), ClientError>, what: &str, code: AetherError) -> (r: Outcome)
    ensures
        tells(r, outcome(done), what@, code),
{
    match done {
        Ok(_) => success(),
        Err(e) => {
            let mut m = joined(what, " failed: ");
            m.append(e.message().as_str());
            failure(code, m.as_str())
        },
    }
}

/// Whether an outcome says that there is no such client.
pub open spec fn no_client(o: Outcome) -> bool {
    o.says(AetherError::InvalidHandle, Some("Invalid client handle"@))
}

/// The outcome of a call on a handle that is not that of a client.
pub fn unknown_client() -> (r: Outcome)
    ensures
        no_client(r),
{
    failure(AetherError::InvalidHandle, "Invalid client handle")
}

/// The outcome of stopping a server.
pub fn server_stop_outcome(existed: bool) -> (r: Outcome)
    ensures
        if existed {
            r.says(AetherError::Success, None)
        } else {
            r.says(AetherError::InvalidHandle, Some("Invalid server handle"@))
        },
{
    if existed {
        success()
    } else {
        failure(AetherError::InvalidHandle, "Invalid server handle")
    }
}

/// Why a client was not made.
pub enum Refusal {
    /// The document cannot be read.
    Unread(String),
    /// The configuration is not right.
    Unfit(String),
}

/// Mathematical counterpart of [`Refusal`].
pub enum RefusalModel {
    Unread(Seq<char>),
    Unfit(Seq<char>),
}

impl View for Refusal {
    type V = RefusalModel;

    open spec fn view(&self) -> RefusalModel {
        match *self {
            Refusal::Unread(s) => RefusalModel::Unread(s@),
            Refusal::Unfit(s) => RefusalModel::Unfit(s@),
        }
    }
}

/// Why a client is not made of a configuration, if it is not.
pub open spec fn creation_fault(doc: Result<DocModel, CoreFault>) -> Option<RefusalModel> {
    match doc {
        Err(fault) => Some(RefusalModel::Unread(core_text(fault))),
        Ok(doc) => match read_config(client_table(doc)) {
            Err(fault) => Some(
                RefusalModel::Unfit("Client creation failed: "@ + client_text(fault)),
            ),
            Ok(_) => None,
        },
    }
}

/// Whether a client is as it is made of a configuration.
pub open spec fn fresh_client<P: Platform, H>(
    c: Client<P, H>,
    doc: Result<DocModel, CoreFault>,
    platform: P,
) -> bool {
    &&& doc is Ok
    &&& read_config(client_table(doc->Ok_0)) == Ok::<_, ClientFault>(c.spec_config())
    &&& !c.spec_up()
    &&& c.spec_pump() is None
    &&& c.spec_platform() == platform
}

/// Makes a client of what a configuration text was read as.
pub fn client_of<P: Platform, H>(doc: Result<Document, CoreError>, platform: P) -> (r: Result<
    Client<P, H>,
    Refusal,
>)
    ensures
        match (r, creation_fault(read_as(doc))) {
            (Ok(c), None) => fresh_client(c, read_as(doc), platform),
            (Err(why), Some(m)) => why@ == m,
            _ => false,
        },
{
    match doc {
        Err(e) => Err(Refusal::Unread(e.message())),
        Ok(doc) => match Client::new(&doc, platform) {
            Ok(c) => Ok(c),
            Err(e) => Err(
                Refusal::Unfit(joined("Client creation failed: ", e.message().as_str())),
            ),
        },
    }
}

/// What reading a document came to.
pub open spec fn read_as(doc: Result<Document, CoreError>) -> Result<DocModel, CoreFault> {
    match doc {
        Ok(d) => Ok(d.model()),
        Err(e) => Err(e@),
    }
}

/// Makes a client of a configuration text, which is JSON or YAML.
pub fn create_client<P: Platform, H>(config: &str, platform: P) -> (r: Result<
    Client<P, H>,
    Refusal,
>)
    ensures
        ({
            let doc = document_reading(json_reading(config@), yaml_reading(config@));
            match (r, creation_fault(doc)) {
                (Ok(c), None) => fresh_client(c, doc, platform),
                (Err(why), Some(m)) => why@ == m,
                _ => false,
            }
        }),
{
    client_of(parse_document(config), platform)
}

/// Makes a client of a configuration text that is JSON.
pub fn create_client_of_json<P: Platform, H>(config: &str, platform: P) -> (r: Option<Client<P, H>>)
    ensures
        match (r, json_reading(config@)) {
            (Some(c), Ok(doc)) => fresh_client(c, Ok(doc), platform),
            (None, Ok(doc)) => read_config(client_table(doc)) is Err,
            (None, Err(_)) => true,
            (Some(_), Err(_)) => false,
        },
{
    match parse_json(config) {
        Err(_) => None,
        Ok(doc) => match Client::new(&doc, platform) {
            Ok(c) => Some(c),
            Err(_) => None,
        },
    }
}

/// Whether a text of `len` bytes and the zero byte behind it fit into a buffer.
pub fn reply_fits(len: usize, out_len: usize) -> (r: bool)
    ensures
        r == (len + 1 <= out_len),
{
    len < out_len
}

/// The numbers of the codes are those of the C interface: 0 for success, and the failures
/// from -1 down.
pub proof fn codes_are_those_of_the_interface(code: AetherError)
    ensures
        code.spec_code() == match code {
            AetherError::Success => 0int,
            AetherError::InvalidHandle => -1int,
            AetherError::InvalidConfig => -2int,
            AetherError::AlreadyRunning => -3int,
            AetherError::NotRunning => -4int,
            AetherError::NetworkError => -5int,
            AetherError::DnsError => -6int,
            AetherError::AuthError => -7int,
            AetherError::InternalError => -8int,
            AetherError::InvalidArgument => -9int,
            AetherError::PermissionDenied => -10int,
        },
{
}

/// A client is made exactly of a configuration that can be read and used, and then has that
/// configuration, is down and pumps nothing.
pub proof fn clients_are_made_of_usable_configurations(doc: DocModel, fault: CoreFault)
    ensures
        creation_fault(Ok(doc)) is None <==> read_config(client_table(doc)) is Ok,
        creation_fault(Err(fault)) matches Some(RefusalModel::Unread(_)),
        read_config(client_table(doc)) is Err ==> (creation_fault(Ok(doc)) matches Some(
            RefusalModel::Unfit(_),
        )),
{
}

/// A new client is down, has no pump, and keeps the configuration that it was made of.
pub proof fn clients_start_down<P: Platform, H>(
    c: Client<P, H>,
    doc: Result<DocModel, CoreFault>,
    platform: P,
)
    requires
        fresh_client(c, doc, platform),
    ensures
        !c.spec_up(),
        c.spec_pump() is None,
        c.spec_platform() == platform,
        doc matches Ok(d) && read_config(client_table(d)) == Ok::<ConfigModel, ClientFault>(
            c.spec_config(),
        ),
{
}

} // verus!
