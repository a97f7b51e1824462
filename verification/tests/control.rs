//! The control socket.

use tagnetd::api::{ApiError, ApiEvent};
use tagnetd::bus::{DaemonMessage, Ingest};
use tagnetd::control::{
    closed_before_response, dispatch, dispatch_at, read_provider_chunk, unexpected, ClientStep,
    ConnectionStep, ControlClient, ControlConnection, ControlFrame, ControlRequest,
    ControlResponse, Dispatch,
};
use tagnetd::database::{FileDatabase, SubtagRule};
use tagnetd::ids::{FileId, TagId};
use tagnetd::state::{Change, LogicalPath};
use tagnetd::transport::{change_event, ends_wait_for_release, relayed_event, Received};

const F: FileId = FileId { value: 1 };
const T: TagId = TagId { value: 2 };

fn store() -> FileDatabase {
    let mut database = FileDatabase::new();
    database.add_file(F, &LogicalPath::new("a.txt")).unwrap();
    database.record_version(F, "h", "local").unwrap();
    database.add_tag(T, "t", "red", 1).unwrap();
    database.tag_file(T, F, 1).unwrap();
    database
}

#[test]
fn reads_are_answered_from_the_database() {
    let database = store();
    let ask = |request: ControlRequest| match dispatch(&database, request) {
        Dispatch::Answer(response) => response,
        other => panic!("unexpected dispatch {other:?}"),
    };
    assert_eq!(
        ask(ControlRequest::ResolveFileId { prefix: F.to_string() }),
        ControlResponse::FileId(F)
    );
    assert_eq!(
        ask(ControlRequest::ResolveTagId { prefix: "zz".to_owned() }),
        ControlResponse::Error(ApiError::NotFound)
    );
    assert_eq!(
        ask(ControlRequest::TagsForFile { file_id: F, subtag_rule: SubtagRule::Include }),
        ControlResponse::TagIds(vec![T])
    );
    assert_eq!(
        ask(ControlRequest::SubtagsForTag { tag_id: T, subtag_rule: SubtagRule::Include }),
        ControlResponse::TagIds(Vec::new())
    );
    assert!(matches!(
        ask(ControlRequest::GetFile { file_id: F }),
        ControlResponse::File(info) if info.content_hash == "h"
    ));
    assert!(matches!(
        ask(ControlRequest::GetTag { tag_id: T }),
        ControlResponse::Tag(tag) if tag.name == "t"
    ));
    assert!(matches!(
        ask(ControlRequest::RunQuery {
            query: "a.txt".to_owned(),
            subtag_rule: SubtagRule::Include,
        }),
        ControlResponse::QueryResult(result) if result.files.len() == 1 && result.tags.is_empty()
    ));
}

#[test]
fn writes_go_onto_the_bus() {
    let database = store();
    assert!(matches!(
        dispatch(&database, ControlRequest::DeleteTag { tag_id: T }),
        Dispatch::Enqueue { response: ControlResponse::Done, .. }
    ));
    assert!(matches!(
        dispatch(
            &database,
            ControlRequest::CreateTag { name: "n".to_owned(), color: "c".to_owned() }
        ),
        Dispatch::Enqueue { response: ControlResponse::TagId(_), .. }
    ));
    assert!(matches!(
        dispatch(&database, ControlRequest::TagTag { parent_id: T, subtag_id: T }),
        Dispatch::Answer(ControlResponse::Error(ApiError::InvalidArgument(_)))
    ));
    match dispatch(
        &database,
        ControlRequest::UploadFile {
            path_name: "n".to_owned(),
            content_hash: "h2".to_owned(),
            size: 3,
            tags: vec![T],
        },
    ) {
        Dispatch::Provide {
            message: DaemonMessage::AnnounceProvided { file_id: announced, .. },
            file_id,
            content_hash,
            response,
        } => {
            assert_eq!(announced, file_id);
            assert_eq!(content_hash, "h2");
            assert_eq!(response, ControlResponse::FileId(file_id));
        }
        other => panic!("unexpected dispatch {other:?}"),
    }
    assert!(matches!(
        dispatch(
            &database,
            ControlRequest::EditFile { file_id: F, content_hash: "h2".to_owned(), size: 3 }
        ),
        Dispatch::Provide { file_id: F, response: ControlResponse::Done, .. }
    ));
}

#[test]
fn calls_are_stamped_and_named_as_given() {
    let database = store();
    let (fresh_tag, fresh_file) = (TagId { value: 71 }, FileId { value: 72 });
    let at = |request: ControlRequest| dispatch_at(&database, request, 500, fresh_tag, fresh_file);
    let create = ControlRequest::CreateTag { name: "n".to_owned(), color: "c".to_owned() };
    assert!(matches!(
        at(create),
        Dispatch::Enqueue {
            message: DaemonMessage::Change(
                Ingest::Meta(Change::TagAdded { tag_id, modified_at: 500, .. }),
                _,
            ),
            response: ControlResponse::TagId(id),
        } if tag_id == fresh_tag && id == fresh_tag
    ));
    assert!(matches!(
        at(ControlRequest::DeleteFile { file_id: FileId { value: 1 } }),
        Dispatch::Enqueue {
            message: DaemonMessage::Change(
                Ingest::Meta(Change::FileDeleted { deleted_at: 500, .. }),
                _,
            ),
            ..
        }
    ));
    let upload = ControlRequest::UploadFile {
        path_name: "p".to_owned(),
        content_hash: "h".to_owned(),
        size: 1,
        tags: Vec::new(),
    };
    assert!(matches!(
        at(upload),
        Dispatch::Provide {
            message: DaemonMessage::AnnounceProvided { file_id, .. },
            file_id: provided,
            response: ControlResponse::FileId(answered),
            ..
        } if file_id == fresh_file && provided == fresh_file && answered == fresh_file
    ));
}

#[test]
fn some_calls_have_to_wait() {
    let database = store();
    assert!(matches!(
        dispatch(
            &database,
            ControlRequest::FetchFile { file_id: F, expected_hash: "h".to_owned() }
        ),
        Dispatch::Fetch { file_id: F, .. }
    ));
    assert!(matches!(
        dispatch(&database, ControlRequest::LocalPathForFile { file_id: F }),
        Dispatch::LocalPath { file_id: F }
    ));
    assert!(matches!(
        dispatch(&database, ControlRequest::Subscribe),
        Dispatch::Subscribe { response: ControlResponse::Subscribed, first: ApiEvent::Resynced }
    ));
}

/// Each chunk reaches whoever asked for it, once.
#[test]
fn chunk_replies_are_routed_by_number() {
    let mut connection = ControlConnection::new();
    let first = connection.on_chunk_wanted(0, 100).unwrap();
    let second = connection.on_chunk_wanted(65536, 200).unwrap();
    assert_eq!(first, ControlFrame::ProviderChunkRequest { chunk_id: 0, offset: 0 });
    assert_eq!(second, ControlFrame::ProviderChunkRequest { chunk_id: 1, offset: 65536 });
    let reply = || ControlFrame::ProviderChunkReply { chunk_id: 1, bytes: vec![9], last: true };
    assert!(matches!(
        connection.on_frame(reply()),
        ConnectionStep::Deliver { waiter: 200, last: true, .. }
    ));
    assert!(matches!(connection.on_frame(reply()), ConnectionStep::Ignore));
    assert!(matches!(
        connection.on_frame(ControlFrame::Request { id: 5, request: ControlRequest::Subscribe }),
        ConnectionStep::Dispatch { id: 5, request: ControlRequest::Subscribe }
    ));
    assert!(matches!(
        connection.on_frame(ControlFrame::Event(ApiEvent::Resynced)),
        ConnectionStep::Ignore
    ));
}

#[test]
fn a_provider_is_released_once() {
    let mut connection = ControlConnection::new();
    assert_eq!(connection.release(), None);
    connection.provides(F, "h".to_owned());
    assert_eq!(connection.release(), Some((F, "h".to_owned())));
    assert_eq!(connection.release(), None);
}

#[test]
fn answers_are_routed_by_number() {
    let mut client = ControlClient::new();
    let call = client.call(ControlRequest::Subscribe, 7).unwrap();
    assert_eq!(call, ControlFrame::Request { id: 0, request: ControlRequest::Subscribe });
    let answer = || ControlFrame::Response { id: 0, response: ControlResponse::Subscribed };
    assert!(matches!(
        client.on_frame(answer()),
        ClientStep::Deliver { waiter: 7, response: ControlResponse::Subscribed }
    ));
    assert!(matches!(client.on_frame(answer()), ClientStep::Ignore));
    let _ = client.call(ControlRequest::Subscribe, 8);
    client.closed();
    assert!(matches!(
        client.on_frame(ControlFrame::Response { id: 1, response: ControlResponse::Done }),
        ClientStep::Ignore
    ));
    // Numbers are not used again.
    assert!(matches!(
        client.call(ControlRequest::Subscribe, 9),
        Some(ControlFrame::Request { id: 2, .. })
    ));
}

#[test]
fn the_client_serves_the_file_that_it_provides() {
    let mut client = ControlClient::new();
    let wanted = || ControlFrame::ProviderChunkRequest { chunk_id: 3, offset: 10 };
    assert!(matches!(
        client.on_frame(wanted()),
        ClientStep::Send(ControlFrame::ProviderChunkReply { chunk_id: 3, bytes, last: true })
            if bytes.is_empty()
    ));
    client.provide(Some("/f".to_owned()));
    assert!(matches!(
        client.on_frame(wanted()),
        ClientStep::ReadChunk { chunk_id: 3, path, offset: 10 } if path == "/f"
    ));
    assert!(matches!(
        client.on_frame(ControlFrame::Event(ApiEvent::Resynced)),
        ClientStep::Publish(ApiEvent::Resynced)
    ));
    assert_eq!(
        read_provider_chunk(3, 10, Some((vec![1, 2], 12))),
        ControlFrame::ProviderChunkReply { chunk_id: 3, bytes: vec![1, 2], last: true }
    );
    assert_eq!(
        read_provider_chunk(3, 10, Some((vec![1, 2], 13))),
        ControlFrame::ProviderChunkReply { chunk_id: 3, bytes: vec![1, 2], last: false }
    );
}

#[test]
fn unexpected_answers_are_errors() {
    assert_eq!(ControlResponse::FileId(F).into_file_id("shown"), Ok(F));
    assert_eq!(ControlResponse::TagId(T).into_tag_id("shown"), Ok(T));
    assert_eq!(ControlResponse::TagIds(vec![T]).into_tag_ids("shown"), Ok(vec![T]));
    assert_eq!(
        ControlResponse::LocalPath(None).into_local_path("shown"),
        Ok(None)
    );
    assert_eq!(ControlResponse::Done.into_done("shown"), Ok(()));
    assert_eq!(ControlResponse::Subscribed.into_subscribed("shown"), Ok(()));
    assert_eq!(
        ControlResponse::Error(ApiError::NotFound).into_file_path("shown"),
        Err(ApiError::NotFound)
    );
    assert_eq!(
        ControlResponse::Done.into_query_result("Done"),
        Err(ApiError::Transport("unexpected control response: Done".to_owned()))
    );
    assert_eq!(
        unexpected(ControlResponse::Error(ApiError::NotFound), "shown"),
        ApiError::NotFound
    );
    assert_eq!(
        closed_before_response().to_string(),
        "transport error: control connection closed before response"
    );
}

#[test]
fn a_slow_subscriber_is_asked_to_fetch_anew() {
    let change = || Change::FileDeleted { file_id: F, deleted_at: 1 };
    assert_eq!(change_event(Received::Item(change())), Some(ApiEvent::Changed(change())));
    assert_eq!(change_event(Received::Lagged), Some(ApiEvent::Resynced));
    assert_eq!(change_event(Received::Closed), None);
    let released = || ApiEvent::ProviderReleased { file_id: F };
    assert_eq!(relayed_event(Received::Item(released())), Some(released()));
    assert_eq!(relayed_event(Received::Lagged), Some(ApiEvent::Resynced));
    assert_eq!(relayed_event(Received::Closed), None);
    assert!(ends_wait_for_release(&Received::Item(released()), F));
    assert!(!ends_wait_for_release(&Received::Item(released()), FileId { value: 9 }));
    assert!(!ends_wait_for_release(&Received::Lagged, F));
    assert!(ends_wait_for_release(&Received::Closed, F));
}
