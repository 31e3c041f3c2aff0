//! The calls on clients, by handle.

use vstd::prelude::*;
use vstd::string::*;
use vstd::utf8::encode_utf8;

use crate::client::platform::{outcome, Platform};
use crate::client::routing::rules_fault;
use crate::client::{client_text, rules_text, status_text, Client, ClientFault};
use crate::engine::config::{json_reading, parse_json, DocModel, Document};
use crate::ffi::{
    client_outcome, failure, no_client, reply_fits, tells, unknown_client, AetherError, HandleMap,
    HandleModel, Outcome,
};
use crate::text::{ends_with, joined};

verus! {

/// Whether a table changed at one client alone.
pub open spec fn changed_at<C, S>(
    before: HandleModel<C, S>,
    after: HandleModel<C, S>,
    handle: usize,
) -> bool {
    after == (HandleModel {
        clients: before.clients.insert(handle, after.clients[handle]),
        ..before
    })
}

proof fn taken_out_and_put_back<C, S>(
    before: HandleModel<C, S>,
    after: HandleModel<C, S>,
    handle: usize,
    client: C,
)
    requires
        after == (HandleModel {
            clients: before.clients.remove(handle).insert(handle, client),
            ..before
        }),
    ensures
        changed_at(before, after, handle),
        after.clients[handle] == client,
{
    assert(after.clients =~= before.clients.insert(handle, client));
}

proof fn nothing_taken_out<C, S>(
    before: HandleModel<C, S>,
    after: HandleModel<C, S>,
    handle: usize,
)
    requires
        !before.clients.contains_key(handle),
        after == (HandleModel { clients: before.clients.remove(handle), ..before }),
    ensures
        after == before,
{
    assert(after.clients =~= before.clients);
}

/// Brings the tunnel of a client up.
pub fn client_up<P: Platform, H, S>(
    handles: &mut HandleMap<Client<P, H>, S>,
    handle: usize,
) -> (r: Outcome)
    requires
        old(handles).wf(),
    ensures
        final(handles).wf(),
        ({
            let before = old(handles).model();
            let after = final(handles).model();
            if !before.clients.contains_key(handle) {
                no_client(r) && after == before
            } else {
                &&& changed_at(before, after, handle)
                &&& exists|done: Result<(), ClientFault>| #[trigger]
                    before.clients[handle].came_up(after.clients[handle], done) && tells(
                        r,
                        done,
                        "Client up"@,
                        AetherError::NetworkError,
                    )
            }
        }),
{
    let ghost before = handles.model();
    match handles.remove_client(handle) {
        None => {
            proof {
                nothing_taken_out(before, handles.model(), handle);
            }
            unknown_client()
        },
        Some(client) => {
            let mut client = client;
            let done = client.up();
            handles.put_client(handle, client);
            proof {
                taken_out_and_put_back(before, handles.model(), handle, client);
                assert(before.clients[handle].came_up(client, outcome(done)));
            }
            client_outcome(done, "Client up", AetherError::NetworkError)
        },
    }
}

/// Takes the tunnel of a client down and lets go of its pump.
pub fn client_down<P: Platform, H, S>(
    handles: &mut HandleMap<Client<P, H>, S>,
    handle: usize,
) -> (r: Outcome)
    requires
        old(handles).wf(),
    ensures
        final(handles).wf(),
        ({
            let before = old(handles).model();
            let after = final(handles).model();
            if !before.clients.contains_key(handle) {
                no_client(r) && after == before
            } else {
                &&& changed_at(before, after, handle)
                &&& before.clients[handle].came_down(after.clients[handle])
                &&& r.says(AetherError::Success, None)
            }
        }),
{
    let ghost before = handles.model();
    match handles.remove_client(handle) {
        None => {
            proof {
                nothing_taken_out(before, handles.model(), handle);
            }
            unknown_client()
        },
        Some(client) => {
            let mut client = client;
            let done = client.down();
            handles.put_client(handle, client);
            proof {
                taken_out_and_put_back(before, handles.model(), handle, client);
            }
            client_outcome(done, "Client down", AetherError::NetworkError)
        },
    }
}

/// Whether a reply of a text is right: the room that the caller offers is looked at
/// first, then the handle, then whether the text and the zero byte behind it fit.
pub open spec fn replied(r: Result<String, Outcome>, text: Option<Seq<char>>, room: usize) -> bool {
    if room == 0 {
        r matches Err(o) && o.says(AetherError::InvalidArgument, None)
    } else {
        match text {
            None => r matches Err(o) && no_client(o),
            Some(text) => if encode_utf8(text).len() + 1 > room {
                r matches Err(o) && o.says(
                    AetherError::InvalidArgument,
                    Some("Output buffer too small"@),
                )
            } else {
                r matches Ok(s) && s@ == text
            },
        }
    }
}

fn fitting(text: String, room: usize) -> (r: Result<String, Outcome>)
    requires
        room > 0,
    ensures
        replied(r, Some(text@), room),
{
    if reply_fits(text.as_str().as_bytes().len(), room) {
        Ok(text)
    } else {
        Err(failure(AetherError::InvalidArgument, "Output buffer too small"))
    }
}

/// The status of a client for a buffer of `room` bytes.
pub fn client_status<P: Platform, H, S>(
    handles: &HandleMap<Client<P, H>, S>,
    handle: usize,
    room: usize,
) -> (r: Result<String, Outcome>)
    ensures
        replied(
            r,
            if handles.model().clients.contains_key(handle) {
                let c = handles.model().clients[handle];
                Some(status_text(c.spec_config(), c.spec_up()))
            } else {
                None
            },
            room,
        ),
{
    if room == 0 {
        return Err(Outcome { code: AetherError::InvalidArgument, error: None });
    }
    match handles.get_client(handle) {
        None => Err(unknown_client()),
        Some(client) => match client.status() {
            Ok(text) => fitting(text, room),
            Err(e) => Err(client_outcome(Err(e), "Status", AetherError::InternalError)),
        },
    }
}

/// The rules of a client for a buffer of `room` bytes.
pub fn client_rules_list<P: Platform, H, S>(
    handles: &HandleMap<Client<P, H>, S>,
    handle: usize,
    room: usize,
) -> (r: Result<String, Outcome>)
    ensures
        replied(
            r,
            if handles.model().clients.contains_key(handle) {
                let c = handles.model().clients[handle];
                Some("["@ + rules_text(c.spec_config().rules) + "]"@)
            } else {
                None
            },
            room,
        ),
{
    if room == 0 {
        return Err(Outcome { code: AetherError::InvalidArgument, error: None });
    }
    match handles.get_client(handle) {
        None => Err(unknown_client()),
        Some(client) => match client.rules_json() {
            Ok(text) => fitting(text, room),
            Err(e) => Err(client_outcome(Err(e), "Rules list", AetherError::InternalError)),
        },
    }
}

/// Checks the rules of a client again.
pub fn client_rules_reload<P: Platform, H, S>(
    handles: &HandleMap<Client<P, H>, S>,
    handle: usize,
) -> (r: Outcome)
    ensures
        if !handles.model().clients.contains_key(handle) {
            no_client(r)
        } else {
            tells(
                r,
                match rules_fault(handles.model().clients[handle].spec_config().rules) {
                    None => Ok(()),
                    Some(fault) => Err(fault),
                },
                "Rules reload"@,
                AetherError::InternalError,
            )
        },
{
    match handles.get_client(handle) {
        None => unknown_client(),
        Some(client) => client_outcome(
            client.reload_rules(),
            "Rules reload",
            AetherError::InternalError,
        ),
    }
}

/// Sets the rules of a client, given what their text was read as. The text is
/// looked at before the handle.
pub fn set_read_rules<P: Platform, H, S>(
    handles: &mut HandleMap<Client<P, H>, S>,
    handle: usize,
    doc: Result<Document, String>,
) -> (r: Outcome)
    requires
        old(handles).wf(),
    ensures
        final(handles).wf(),
        rules_were_set(
            old(handles).model(),
            final(handles).model(),
            handle,
            match doc {
                Ok(d) => Ok(d.model()),
                Err(why) => Err(why@),
            },
            r,
        ),
{
    let ghost before = handles.model();
    let doc = match doc {
        Ok(doc) => doc,
        Err(why) => {
            return failure(
                AetherError::InvalidArgument,
                joined("Invalid rules JSON: ", why.as_str()).as_str(),
            );
        },
    };
    match handles.remove_client(handle) {
        None => {
            proof {
                nothing_taken_out(before, handles.model(), handle);
            }
            unknown_client()
        },
        Some(client) => {
            let mut client = client;
            let done = client.set_rules(&doc);
            handles.put_client(handle, client);
            proof {
                taken_out_and_put_back(before, handles.model(), handle, client);
                assert(before.clients[handle].took_rules(client, doc.model(), outcome(done)));
            }
            client_outcome(done, "Rules set", AetherError::InvalidArgument)
        },
    }
}

/// Whether the rules of a client were set as their text says.
pub open spec fn rules_were_set<P: Platform, H, S>(
    before: HandleModel<Client<P, H>, S>,
    after: HandleModel<Client<P, H>, S>,
    handle: usize,
    reading: Result<DocModel, Seq<char>>,
    r: Outcome,
) -> bool {
    match reading {
        Err(why) => {
            &&& r.says(AetherError::InvalidArgument, Some("Invalid rules JSON: "@ + why))
            &&& after == before
        },
        Ok(doc) => if !before.clients.contains_key(handle) {
            no_client(r) && after == before
        } else {
            &&& changed_at(before, after, handle)
            &&& exists|done: Result<(), ClientFault>| #[trigger]
                before.clients[handle].took_rules(after.clients[handle], doc, done) && tells(
                    r,
                    done,
                    "Rules set"@,
                    AetherError::InvalidArgument,
                )
        },
    }
}

/// Sets the rules of a client to those of a JSON text.
pub fn client_rules_set<P: Platform, H, S>(
    handles: &mut HandleMap<Client<P, H>, S>,
    handle: usize,
    text: &str,
) -> (r: Outcome)
    requires
        old(handles).wf(),
    ensures
        final(handles).wf(),
        rules_were_set(
            old(handles).model(),
            final(handles).model(),
            handle,
            json_reading(text@),
            r,
        ),
{
    set_read_rules(handles, handle, parse_json(text))
}

/// A text is handed out whole or not at all: exactly where the handle is that of a client and
/// the buffer has room for it and for the zero byte behind it.
pub proof fn replies_are_whole(r: Result<String, Outcome>, text: Option<Seq<char>>, room: usize)
    requires
        replied(r, text, room),
    ensures
        r is Ok <==> (text matches Some(t) && encode_utf8(t).len() + 1 <= room),
        r matches Ok(s) ==> text == Some(s@),
        r matches Err(o) ==> {
            &&& (text is Some || room == 0) ==> o.code == AetherError::InvalidArgument
            &&& (text is None && room > 0) ==> o.code == AetherError::InvalidHandle
        },
{
}

/// A call on one handle leaves every other client and every server as they are.
pub proof fn calls_concern_their_own_handle<C, S>(
    before: HandleModel<C, S>,
    after: HandleModel<C, S>,
    handle: usize,
    other: usize,
)
    requires
        changed_at(before, after, handle),
        before.clients.contains_key(handle),
        other != handle,
    ensures
        after.clients.contains_key(handle),
        after.clients.contains_key(other) == before.clients.contains_key(other),
        before.clients.contains_key(other) ==> after.clients[other] == before.clients[other],
        after.servers == before.servers,
        after.next_id == before.next_id,
{
}

/// A call tells success exactly where what it asked for was done, without a note, and else its
/// own code with a note that ends in the reason.
pub proof fn calls_tell_what_was_done(
    o: Outcome,
    done: Result<(), ClientFault>,
    what: Seq<char>,
    code: AetherError,
)
    requires
        tells(o, done, what, code),
        code != AetherError::Success,
    ensures
        o.code == AetherError::Success <==> done is Ok,
        done is Ok ==> o.error is None,
        done matches Err(fault) ==> o.code == code && (o.error matches Some(note) && ends_with(
            note@,
            client_text(fault),
        )),
{
    if let Err(fault) = done {
        let note = o.error->Some_0@;
        let tail = client_text(fault);
        assert(note.skip(note.len() - tail.len()) =~= tail);
    }
}

/// Rules that are not taken change no client's configuration: a text that is no JSON or an
/// unknown handle changes nothing at all, and whatever is told but success leaves the client's
/// own configuration as it was.
pub proof fn refused_rules_change_no_configuration<P: Platform, H, S>(
    before: HandleModel<Client<P, H>, S>,
    after: HandleModel<Client<P, H>, S>,
    handle: usize,
    reading: Result<DocModel, Seq<char>>,
    r: Outcome,
)
    requires
        rules_were_set(before, after, handle, reading, r),
    ensures
        reading is Err ==> after == before && r.code == AetherError::InvalidArgument,
        reading is Ok && !before.clients.contains_key(handle) ==> after == before && r.code
            == AetherError::InvalidHandle,
        before.clients.contains_key(handle) && r.code != AetherError::Success
            ==> after.clients[handle].spec_config() == before.clients[handle].spec_config(),
        forall|other: usize|
            #![trigger before.clients[other]]
            before.clients.contains_key(other) && other != handle ==> after.clients[other]
                == before.clients[other],
        after.servers == before.servers,
{
}

} // verus!
