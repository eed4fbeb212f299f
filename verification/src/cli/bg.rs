//! Background dispatch. There is no supervisor: a prompt first enters the
//! session's durable inbox, then a detached worker is started that is told
//! only which session it works for. The dashboard reads the store and never
//! talks to workers, which is why workers survive it closing.
use vstd::prelude::*;
use vstd::string::*;

use crate::ids::{is_uuid, random_id};
use crate::json::Json;
use crate::llm::{BlockView, Message, MessageView, Role};
use crate::path::{join, joined};
use crate::store::{Payload, PayloadView, SessionInputView, Store, StoreError, StoreErrorView};
use crate::text::views;

verus! {

/// A prompt that is queued and a worker that was started for it.
#[derive(Debug)]
pub struct Dispatch {
    pub input_id: String,
    pub pid: u32,
}

/// Where background sessions are logged, under bullpen's home.
pub fn logs_dir(home: &str) -> (r: String)
    ensures
        r@ == joined(home@, "logs"@),
{
    join(home, "logs")
}

/// Where a background session's output is captured.
pub fn log_path(home: &str, session_id: &str) -> (r: String)
    ensures
        r@ == joined(joined(home@, "logs"@), session_id@ + ".log"@),
{
    let dir = logs_dir(home);
    let name = session_id.to_owned().concat(".log");
    join(dir.as_str(), name.as_str())
}

/// The arguments of a worker: no prompt and no policy, both of which it reads
/// from the durable inbox.
pub fn worker_args(session_id: &str) -> (r: Vec<String>)
    ensures
        views(r@) == seq!["session-worker"@, session_id@],
{
    let mut args: Vec<String> = Vec::new();
    args.push("session-worker".to_owned());
    args.push(session_id.to_owned());
    proof {
        assert(views(args@) =~= seq!["session-worker"@, session_id@]);
    }
    args
}

/// A prompt as the inbox keeps it.
pub open spec fn prompt_payload(prompt: Seq<char>) -> PayloadView {
    PayloadView::Message(
        MessageView { role: Role::User, content: seq![BlockView::Text { text: prompt }] },
    )
}

/// Durably queue one prompt under an id.
pub fn enqueue_as(
    store: &mut Store,
    session_id: &str,
    input_id: &str,
    prompt: &str,
    options: &Json,
    now: &str,
) -> (r: Result<(), StoreError>)
    ensures
        final(store)@ == old(store)@.enqueue(
            session_id@,
            input_id@,
            prompt_payload(prompt@),
            options@,
            now@,
        ).0,
        match r {
            Ok(_) => old(store)@.enqueue(
                session_id@,
                input_id@,
                prompt_payload(prompt@),
                options@,
                now@,
            ).1 is Ok,
            Err(e) => old(store)@.enqueue(
                session_id@,
                input_id@,
                prompt_payload(prompt@),
                options@,
                now@,
            ).1 == Err::<SessionInputView, StoreErrorView>(e@),
        },
{
    let message = Message::user_text(prompt);
    let payload = Payload::Message(message);
    proof {
        assert(payload@ == prompt_payload(prompt@));
    }
    match store.enqueue_input_for_worker(session_id, input_id, &payload, options, now) {
        Ok(_) => Ok(()),
        Err(e) => Err(e),
    }
}

/// Durably queue one prompt under a fresh id and give the id.
pub fn enqueue(store: &mut Store, session_id: &str, prompt: &str, options: &Json, now: &str) -> (r:
    Result<String, StoreError>)
    ensures
        exists|id: Seq<char>| #[trigger]
            is_uuid(id) && final(store)@ == old(store)@.enqueue(
                session_id@,
                id,
                prompt_payload(prompt@),
                options@,
                now@,
            ).0 && (match r {
                Ok(shown) => shown@ == id && old(store)@.enqueue(
                    session_id@,
                    id,
                    prompt_payload(prompt@),
                    options@,
                    now@,
                ).1 is Ok,
                Err(e) => old(store)@.enqueue(
                    session_id@,
                    id,
                    prompt_payload(prompt@),
                    options@,
                    now@,
                ).1 == Err::<SessionInputView, StoreErrorView>(e@),
            }),
{
    let id = random_id();
    match enqueue_as(store, session_id, id.as_str(), prompt, options, now) {
        Ok(()) => Ok(id),
        Err(e) => Err(e),
    }
}

/// What is said where the worker could not be started: the prompt is queued
/// all the same, and waits for the next dispatch.
pub fn kick_failure(input_id: &str, why: &str) -> (r: String)
    ensures
        r@ == "worker kick failed after input "@ + input_id@
            + " was durably queued; the input remains pending until another explicit kick: "@ + why@,
{
    "worker kick failed after input ".to_owned().concat(input_id).concat(
        " was durably queued; the input remains pending until another explicit kick: ",
    ).concat(why)
}

} // verus!
