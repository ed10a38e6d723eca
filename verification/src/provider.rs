//! The provider, and what it publishes.

use crate::error::{error_report, ProviderError};
use crate::models::STREAM_TOPIC;
use crate::stream::{Event, StreamEvent};
use uuid::Uuid;
use vstd::prelude::*;
use vstd::string::*;

verus! {

/// OpenAI-compatible LLM provider capsule.
#[derive(Clone, Copy, Debug, Default)]
pub struct OpenAICompatProvider;

/// `uuid::Uuid`, held opaquely: request ids are carried, never looked into.
#[verifier::external_type_specification]
#[verifier::external_body]
pub struct ExUuid(uuid::Uuid);

/// An event to put on the bus: where, for which request, and what.
#[derive(Debug, PartialEq)]
pub struct Publication {
    pub topic: String,
    pub request_id: Uuid,
    pub event: StreamEvent,
}

impl OpenAICompatProvider {
    /// Addresses a stream event of a request.
    pub fn publish_stream(request_id: Uuid, event: StreamEvent) -> (publication: Publication)
        ensures
            publication.topic@ == STREAM_TOPIC@,
            publication.request_id == request_id,
            publication.event == event,
    {
        Publication { topic: STREAM_TOPIC.to_owned(), request_id, event }
    }

    /// What is published once a request has been executed: nothing more where it
    /// went well, an error event with a report of the failure where it did not.
    pub fn handle_llm_request(
        &self,
        request_id: Uuid,
        outcome: Result<(), ProviderError>,
    ) -> (report: Option<Publication>)
        ensures
            match outcome {
                Ok(_) => report is None,
                Err(failure) => {
                    &&& report matches Some(publication)
                    &&& publication.topic@ == STREAM_TOPIC@
                    &&& publication.request_id == request_id
                    &&& publication.event@ == Event::Error(error_report(failure))
                },
            },
    {
        match outcome {
            Ok(_) => None,
            Err(failure) => Some(
                Self::publish_stream(request_id, StreamEvent::Error(failure.report())),
            ),
        }
    }
}

} // verus!
