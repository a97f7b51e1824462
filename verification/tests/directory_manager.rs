//! The sync directories: commands, watcher events and missed changes.

use tagnetd::bus::{ContentChange, DaemonMessage, Ingest};
use tagnetd::configuration::SyncType;
use tagnetd::database::sync_directory::{SyncDirectoryDatabase, SyncDirectoryFile};
use tagnetd::database::DatabaseError;
use tagnetd::directory_manager::events::{DebouncedEventKind, DiskState, EventStep};
use tagnetd::directory_manager::placement::{PlacementRun, PlacementStep};
use tagnetd::directory_manager::{
    DiskStep, Finish, RichSyncDirectory, SyncDirectoryCommand, SyncDirectoryError,
    SyncDirectoryManager,
};
use tagnetd::file_bytes::FileBytes;
use tagnetd::ids::{FileId, TagId};
use tagnetd::state::{Change, ChangeOrigin, LogicalPath, PhysicalPath};

fn universal(path: &str) -> RichSyncDirectory {
    RichSyncDirectory {
        path: path.to_owned(),
        sync_type: SyncType::Universal { keep_deleted_files: false },
        database: SyncDirectoryDatabase::new(),
    }
}

fn tagged(path: &str, tags: Vec<TagId>) -> RichSyncDirectory {
    RichSyncDirectory {
        path: path.to_owned(),
        sync_type: SyncType::TagBased { tags },
        database: SyncDirectoryDatabase::new(),
    }
}

fn holding(mut directory: RichSyncDirectory, file_id: FileId, name: &str) -> RichSyncDirectory {
    directory.database.add_file(file_id, &PhysicalPath::new(name)).unwrap();
    directory
}

const F: FileId = FileId { value: 0xf };
const G: FileId = FileId { value: 0x10 };
const T: TagId = TagId { value: 0x7 };

/// Creates a file as a command asks and records it.
fn create(manager: &mut SyncDirectoryManager, name: &str, directory: &str, hash: &str) -> String {
    let step = manager
        .handle_command(SyncDirectoryCommand::CreateFile {
            file_id: F,
            physical_path: PhysicalPath::new(name),
            content: FileBytes::InMemory(b"bytes".to_vec()),
            sync_directory_path: directory.to_owned(),
        })
        .unwrap();
    match step {
        DiskStep::Write { file_path, create_parent, finish, .. } => {
            assert!(create_parent);
            manager.finish(finish, Some(hash.to_owned())).unwrap();
            file_path
        }
        other => panic!("unexpected step {other:?}"),
    }
}

#[test]
fn create_file_with_move_relocates_source() {
    let mut manager = SyncDirectoryManager::new(vec![universal("/sync")]);
    let name = F.to_string();
    let step = manager
        .handle_command(SyncDirectoryCommand::CreateFile {
            file_id: F,
            physical_path: PhysicalPath::new(&name),
            content: FileBytes::FileToMove("/sync/photo.jpg".to_owned()),
            sync_directory_path: "/sync".to_owned(),
        })
        .unwrap();
    match step {
        DiskStep::Write { file_path, content, finish, .. } => {
            assert_eq!(file_path, format!("/sync/{name}"));
            assert_eq!(content, FileBytes::FileToMove("/sync/photo.jpg".to_owned()));
            manager.finish(finish, Some("h".to_owned())).unwrap();
        }
        other => panic!("unexpected step {other:?}"),
    }
    assert_eq!(manager.local_path(F), Some(format!("/sync/{name}")));
}

#[test]
fn create_file_with_copy_preserves_source() {
    let mut manager = SyncDirectoryManager::new(vec![tagged("/sync", vec![T])]);
    let step = manager
        .handle_command(SyncDirectoryCommand::CreateFile {
            file_id: F,
            physical_path: PhysicalPath::new("a/b.txt"),
            content: FileBytes::FileToCopy("/elsewhere".to_owned()),
            sync_directory_path: "/sync".to_owned(),
        })
        .unwrap();
    assert!(matches!(
        step,
        DiskStep::Write { content: FileBytes::FileToCopy(_), ref file_path, .. }
            if file_path == "/sync/a/b.txt"
    ));
}

#[test]
fn change_file_overwrites_destination() {
    let mut manager =
        SyncDirectoryManager::new(vec![holding(tagged("/sync", vec![T]), F, "doc.txt")]);
    let step = manager
        .handle_command(SyncDirectoryCommand::ChangeFile {
            file_id: F,
            content: FileBytes::InMemory(vec![2]),
            sync_directory_path: "/sync".to_owned(),
        })
        .unwrap();
    match step {
        DiskStep::Write { file_path, create_parent, content, .. } => {
            assert_eq!(file_path, "/sync/doc.txt");
            assert!(!create_parent);
            assert_eq!(content, FileBytes::InMemory(vec![2]));
        }
        other => panic!("unexpected step {other:?}"),
    }
}

#[test]
fn commands_for_unknown_places_fail() {
    let mut manager = SyncDirectoryManager::new(vec![tagged("/sync", vec![T])]);
    let unknown = "/other".to_owned();
    assert_eq!(
        manager
            .handle_command(SyncDirectoryCommand::RemoveFile {
                file_id: F,
                sync_directory_path: unknown,
            })
            .err(),
        Some(SyncDirectoryError::UnmonitoredDirectory)
    );
    let here = || "/sync".to_owned();
    assert_eq!(
        manager
            .handle_command(SyncDirectoryCommand::RemoveFile {
                file_id: F,
                sync_directory_path: here(),
            })
            .err(),
        Some(SyncDirectoryError::FailedRemovingFile)
    );
    assert_eq!(
        manager
            .handle_command(SyncDirectoryCommand::MoveFile {
                file_id: F,
                physical_path: PhysicalPath::new("x"),
                sync_directory_path: here(),
            })
            .err(),
        Some(SyncDirectoryError::FailedMovingFile)
    );
    assert_eq!(
        manager
            .handle_command(SyncDirectoryCommand::ChangeFile {
                file_id: F,
                content: FileBytes::InMemory(Vec::new()),
                sync_directory_path: here(),
            })
            .err(),
        Some(SyncDirectoryError::FailedChangingFile)
    );
    // A file that is held already cannot be added again.
    create(&mut manager, "a", "/sync", "h");
    assert_eq!(
        manager.finish(
            Finish::Created {
                directory: 0,
                file_id: F,
                physical_path: PhysicalPath::new("a"),
                file_path: "/sync/a".to_owned(),
            },
            None,
        ),
        Err(SyncDirectoryError::FailedAddingFile)
    );
}

#[test]
fn a_move_renames_only_where_names_show() {
    let mut manager = SyncDirectoryManager::new(vec![
        holding(tagged("/tags", vec![T]), F, "old/a.txt"),
        holding(universal("/all"), F, &F.to_string()),
    ]);
    let step = manager
        .handle_command(SyncDirectoryCommand::MoveFile {
            file_id: F,
            physical_path: PhysicalPath::new("new/b.txt"),
            sync_directory_path: "/tags".to_owned(),
        })
        .unwrap();
    match step {
        DiskStep::Rename { from, to, finish } => {
            assert_eq!(from, "/tags/old/a.txt");
            assert_eq!(to, "/tags/new/b.txt");
            manager.finish(finish, None).unwrap();
        }
        other => panic!("unexpected step {other:?}"),
    }
    let moved = manager
        .handle_event(
            DebouncedEventKind::Move {
                from: Some("/tags/old/a.txt".to_owned()),
                to: Some("/tags/new/b.txt".to_owned()),
            },
            0,
        )
        .unwrap();
    assert!(matches!(moved, EventStep::Ignore));
    let step = manager
        .handle_command(SyncDirectoryCommand::MoveFile {
            file_id: F,
            physical_path: PhysicalPath::new(&F.to_string()),
            sync_directory_path: "/all".to_owned(),
        })
        .unwrap();
    assert!(matches!(step, DiskStep::Done));
}

#[test]
fn a_removal_is_recorded_and_ignored() {
    let mut manager = SyncDirectoryManager::new(vec![holding(tagged("/s", vec![T]), F, "d/a")]);
    let step = manager
        .handle_command(SyncDirectoryCommand::RemoveFile {
            file_id: F,
            sync_directory_path: "/s".to_owned(),
        })
        .unwrap();
    match step {
        DiskStep::Remove { file_path, clear_parent, finish } => {
            assert_eq!(file_path, "/s/d/a");
            assert!(clear_parent);
            manager.finish(finish, None).unwrap();
        }
        other => panic!("unexpected step {other:?}"),
    }
    assert_eq!(manager.local_path(F), None);
    let event = DebouncedEventKind::Remove { file_name: "/s/d/a".to_owned() };
    assert!(matches!(manager.handle_event(event.clone(), 5), Ok(EventStep::Ignore)));
    // The next removal there is not the daemon's own.
    assert_eq!(
        manager.handle_event(event, 5).err(),
        Some(SyncDirectoryError::MissingTrackedFile)
    );
}

/// The daemon's own placement, reported as a move into the directory, is not ingested.
#[test]
fn move_in_of_tracked_file_is_not_reingested() {
    let mut manager = SyncDirectoryManager::new(vec![universal("/sync")]);
    let path = create(&mut manager, &F.to_string(), "/sync", "h");
    let step = manager
        .handle_event(DebouncedEventKind::Move { from: None, to: Some(path) }, 0)
        .unwrap();
    match step {
        EventStep::MovedIn { directory, path } => {
            assert!(matches!(manager.moved_in(directory, path.clone()), EventStep::Ignore));
            // Still so once the record of the placement is used up.
            assert!(matches!(manager.moved_in(directory, path), EventStep::Ignore));
            let other = "/sync/photo.jpg".to_owned();
            assert!(matches!(manager.moved_in(directory, other), EventStep::Ingest { .. }));
        }
        other => panic!("unexpected step {other:?}"),
    }
}

#[test]
fn self_caused_modify_is_suppressed() {
    let mut manager = SyncDirectoryManager::new(vec![tagged("/sync", vec![T])]);
    let path = create(&mut manager, "a.txt", "/sync", "written");
    assert!(matches!(
        manager.modified(path, "written".to_owned()),
        Ok(EventStep::Ignore)
    ));
}

#[test]
fn user_edit_after_self_write_is_propagated() {
    let mut manager = SyncDirectoryManager::new(vec![tagged("/sync", vec![T])]);
    let path = create(&mut manager, "a.txt", "/sync", "written");
    match manager.modified(path.clone(), "edited".to_owned()).unwrap() {
        EventStep::Send(messages) => match messages.as_slice() {
            [DaemonMessage::Change(
                Ingest::Content(ContentChange::FileChanged { file_id, content, content_hash }),
                ChangeOrigin::Local { directory_path },
            )] => {
                assert_eq!(*file_id, F);
                assert_eq!(*content, FileBytes::FileToCopy(path.clone()));
                assert_eq!(content_hash, "edited");
                assert_eq!(directory_path, "/sync");
            }
            other => panic!("unexpected messages {other:?}"),
        },
        other => panic!("unexpected step {other:?}"),
    }
    // The record of the daemon's own write is still there.
    assert!(matches!(manager.modified(path, "written".to_owned()), Ok(EventStep::Ignore)));
}

#[test]
fn self_caused_create_variant_is_suppressed() {
    let mut manager = SyncDirectoryManager::new(vec![universal("/sync")]);
    let path = create(&mut manager, &F.to_string(), "/sync", "h");
    let event = DebouncedEventKind::Create { file_name: path };
    assert!(matches!(manager.handle_event(event, 0), Ok(EventStep::Ignore)));
}

#[test]
fn a_dropped_file_is_ingested() {
    let mut manager =
        SyncDirectoryManager::new(vec![universal("/all"), tagged("/tags", vec![T])]);
    let event = DebouncedEventKind::Create { file_name: "/tags/d/a.txt".to_owned() };
    let (directory, path) = match manager.handle_event(event, 0).unwrap() {
        EventStep::Ingest { directory, path } => (directory, path),
        other => panic!("unexpected step {other:?}"),
    };
    match manager.ingest(directory, path, "h".to_owned(), F).unwrap() {
        DaemonMessage::Change(
            Ingest::Content(ContentChange::FileAdded {
                file_id,
                logical_path,
                content,
                content_hash,
                tags,
            }),
            ChangeOrigin::Local { directory_path },
        ) => {
            assert_eq!(file_id, F);
            assert_eq!(logical_path, LogicalPath::new("d/a.txt"));
            assert_eq!(content, FileBytes::FileToCopy("/tags/d/a.txt".to_owned()));
            assert_eq!(content_hash, "h");
            assert_eq!(tags, vec![T]);
            assert_eq!(directory_path, "/tags");
        }
        other => panic!("unexpected message {other:?}"),
    }
    assert_eq!(manager.local_path(F), Some("/tags/d/a.txt".to_owned()));

    // A universal directory hands the bytes over and expects them to vanish.
    match manager.ingest(0, "/all/b.txt".to_owned(), "h".to_owned(), G).unwrap() {
        DaemonMessage::Change(
            Ingest::Content(ContentChange::FileAdded { content, tags, .. }),
            _,
        ) => {
            assert_eq!(content, FileBytes::FileToMove("/all/b.txt".to_owned()));
            assert!(tags.is_empty());
        }
        other => panic!("unexpected message {other:?}"),
    }
    let gone = DebouncedEventKind::Remove { file_name: "/all/b.txt".to_owned() };
    assert!(matches!(manager.handle_event(gone, 0), Ok(EventStep::Ignore)));
    assert_eq!(
        manager.ingest(9, "/all/b.txt".to_owned(), "h".to_owned(), G).err(),
        Some(SyncDirectoryError::UnmonitoredDirectory)
    );
    assert_eq!(
        manager.ingest(1, "/tags/other".to_owned(), "h".to_owned(), F).err(),
        Some(SyncDirectoryError::FailedAddingFile)
    );
}

/// What a rename of a directory does to the files under it.
#[test]
fn a_renamed_directory_takes_its_files_along() {
    let directory = holding(holding(tagged("/t", vec![]), F, "d/a"), G, "d2/b");
    let mut manager = SyncDirectoryManager::new(vec![directory]);
    let step = manager
        .handle_event(
            DebouncedEventKind::Move {
                from: Some("/t/d".to_owned()),
                to: Some("/t/e/f".to_owned()),
            },
            0,
        )
        .unwrap();
    match step {
        EventStep::Send(messages) => match messages.as_slice() {
            [DaemonMessage::Change(
                Ingest::Meta(Change::FileMoved { file_id, logical_path }),
                _,
            )] => {
                assert_eq!(*file_id, F);
                assert_eq!(*logical_path, LogicalPath::new("e/f/a"));
            }
            other => panic!("unexpected messages {other:?}"),
        },
        other => panic!("unexpected step {other:?}"),
    }
    assert_eq!(manager.local_path(F), Some("/t/e/f/a".to_owned()));
    assert_eq!(manager.local_path(G), Some("/t/d2/b".to_owned()));
}

#[test]
fn a_renamed_file_moves() {
    let mut manager = SyncDirectoryManager::new(vec![holding(tagged("/t", vec![]), F, "a")]);
    let step = manager
        .handle_event(
            DebouncedEventKind::Move { from: Some("/t/a".to_owned()), to: Some("/t/b".to_owned()) },
            0,
        )
        .unwrap();
    assert!(matches!(step, EventStep::Send(ref messages) if messages.len() == 1));
    assert_eq!(manager.local_path(F), Some("/t/b".to_owned()));
    // Out of the directory and to another place: not followed.
    let step = manager
        .handle_event(
            DebouncedEventKind::Move { from: Some("/t/b".to_owned()), to: Some("/x/b".to_owned()) },
            0,
        )
        .unwrap();
    assert!(matches!(step, EventStep::Ignore));
    assert_eq!(manager.local_path(F), Some("/t/b".to_owned()));
    let nowhere = DebouncedEventKind::Move { from: None, to: None };
    assert!(matches!(manager.handle_event(nowhere, 0), Ok(EventStep::Ignore)));
}

#[test]
fn a_move_out_deletes() {
    let directory = holding(holding(tagged("/t", vec![]), F, "d/a"), G, "d/b");
    let mut manager = SyncDirectoryManager::new(vec![directory]);
    let step = manager
        .handle_event(DebouncedEventKind::Move { from: Some("/t/d".to_owned()), to: None }, 77)
        .unwrap();
    match step {
        EventStep::Send(messages) => {
            let gone: Vec<(FileId, i64)> = messages
                .iter()
                .map(|message| match message {
                    DaemonMessage::Change(
                        Ingest::Meta(Change::FileDeleted { file_id, deleted_at }),
                        _,
                    ) => (*file_id, *deleted_at),
                    other => panic!("unexpected message {other:?}"),
                })
                .collect();
            assert_eq!(gone, vec![(F, 77), (G, 77)]);
        }
        other => panic!("unexpected step {other:?}"),
    }
    assert_eq!(manager.local_path(F), None);
}

/// A directory that is moved away takes along what lies under it, not what is named like it.
#[test]
fn a_move_out_spares_similar_names() {
    let h = FileId { value: 0x77 };
    let directory = holding(tagged("/t", vec![]), F, "d_1/a");
    let directory = holding(holding(directory, G, "d_1x/b"), h, "dx1/c");
    let mut manager = SyncDirectoryManager::new(vec![directory]);
    let step = manager
        .handle_event(DebouncedEventKind::Move { from: Some("/t/d_1".to_owned()), to: None }, 5)
        .unwrap();
    assert!(matches!(
        step,
        EventStep::Send(ref messages) if matches!(
            messages.as_slice(),
            [DaemonMessage::Change(Ingest::Meta(Change::FileDeleted { file_id: F, .. }), _)]
        )
    ));
    assert_eq!(manager.local_path(F), None);
    assert_eq!(manager.local_path(G), Some("/t/d_1x/b".to_owned()));
    assert_eq!(manager.local_path(h), Some("/t/dx1/c".to_owned()));
}

#[test]
fn renames_within_a_universal_directory_mean_nothing() {
    let mut manager = SyncDirectoryManager::new(vec![holding(universal("/u"), F, "x")]);
    let step = manager
        .handle_event(
            DebouncedEventKind::Move { from: Some("/u/x".to_owned()), to: Some("/u/y".to_owned()) },
            0,
        )
        .unwrap();
    assert!(matches!(step, EventStep::Ignore));
    assert_eq!(manager.local_path(F), Some("/u/x".to_owned()));
}

#[test]
fn events_outside_of_every_directory_fail() {
    let mut manager = SyncDirectoryManager::new(vec![tagged("/t", vec![])]);
    for event in [
        DebouncedEventKind::Create { file_name: "/x/a".to_owned() },
        DebouncedEventKind::Remove { file_name: "/tx/a".to_owned() },
        DebouncedEventKind::Move { from: Some("/x".to_owned()), to: None },
        DebouncedEventKind::Move { from: None, to: Some("/x".to_owned()) },
    ] {
        assert_eq!(
            manager.handle_event(event, 0).err(),
            Some(SyncDirectoryError::UnmonitoredDirectory)
        );
    }
    let modify = DebouncedEventKind::Modify { file_name: "/t/a".to_owned() };
    assert!(matches!(
        manager.handle_event(modify, 0),
        Ok(EventStep::ReadContent { path }) if path == "/t/a"
    ));
    assert_eq!(
        manager.modified("/t/a".to_owned(), "h".to_owned()).err(),
        Some(SyncDirectoryError::MissingTrackedFile)
    );
}

/// Runs a placement to its end, with the given paths on disk. Gives what was done.
fn place(manager: &mut SyncDirectoryManager, tags: Vec<TagId>, on_disk: &[&str]) -> Vec<String> {
    let mut run = PlacementRun::new(F, LogicalPath::new("a.txt"), tags);
    let mut done = Vec::new();
    loop {
        match run.next_step(manager) {
            PlacementStep::FindSource { candidates } => {
                let found = candidates.into_iter().find(|c| on_disk.contains(&c.as_str()));
                run.found(found);
            }
            PlacementStep::Gain { source, file_path, finish } => {
                done.push(format!("{source} -> {file_path}"));
                manager.finish(finish, Some("h".to_owned())).unwrap();
            }
            PlacementStep::Lose { file_path, finish } => {
                done.push(format!("remove {file_path}"));
                manager.finish(finish, None).unwrap();
            }
            PlacementStep::Done => return done,
        }
    }
}

#[test]
fn reconcile_places_file_into_newly_matching_tag_directory() {
    let stored = format!("/all/{}", F.to_string());
    let mut manager = SyncDirectoryManager::new(vec![
        holding(universal("/all"), F, &F.to_string()),
        tagged("/tags", vec![T]),
    ]);
    let done = place(&mut manager, vec![T], &[&stored]);
    assert_eq!(done, vec![format!("{stored} -> /tags/a.txt")]);
    // Once placed, nothing is left to do.
    assert!(place(&mut manager, vec![T], &[&stored]).is_empty());
}

/// The only copy is handed on before it is removed, whatever the order of the directories.
#[test]
fn a_walk_loses_no_bytes() {
    let u = TagId { value: 0x55 };
    let mut manager = SyncDirectoryManager::new(vec![
        holding(tagged("/a", vec![T]), F, "a.txt"),
        tagged("/b", vec![u]),
        tagged("/c", vec![u]),
    ]);
    let done = place(&mut manager, vec![u], &["/a/a.txt"]);
    assert_eq!(
        done,
        vec![
            "/a/a.txt -> /b/a.txt".to_owned(),
            "/a/a.txt -> /c/a.txt".to_owned(),
            "remove /a/a.txt".to_owned(),
        ]
    );
    assert_eq!(manager.local_path(F), Some("/b/a.txt".to_owned()));
    assert!(place(&mut manager, vec![u], &["/b/a.txt", "/c/a.txt"]).is_empty());
}

#[test]
fn reconcile_removes_file_from_no_longer_matching_tag_directory() {
    let mut manager = SyncDirectoryManager::new(vec![holding(tagged("/tags", vec![T]), F, "a.txt")]);
    let done = place(&mut manager, Vec::new(), &[]);
    assert_eq!(done, vec!["remove /tags/a.txt".to_owned()]);
    assert_eq!(manager.local_path(F), None);
}

#[test]
fn reconcile_defers_when_no_source_copy_exists() {
    let mut manager = SyncDirectoryManager::new(vec![tagged("/a", vec![T]), tagged("/b", vec![T])]);
    assert!(place(&mut manager, vec![T], &[]).is_empty());
    assert_eq!(manager.local_path(F), None);
}

#[test]
fn missed_changes_show_at_start() {
    let mut manager =
        SyncDirectoryManager::new(vec![holding(tagged("/t", vec![T]), F, "a"), universal("/u")]);
    let file = SyncDirectoryFile { file_id: F, physical_path: PhysicalPath::new("a") };
    assert_eq!(manager.tracked_path(0, &file), Some("/t/a".to_owned()));
    assert_eq!(manager.tracked_path(1, &file), Some(format!("/u/{}", F.to_string())));
    assert!(manager
        .check_tracked(0, &file, DiskState::Present("h".to_owned()), Some("h"), 1)
        .is_none());
    assert!(manager.check_tracked(0, &file, DiskState::Unreadable, Some("h"), 1).is_none());
    assert!(matches!(
        manager.check_tracked(0, &file, DiskState::Present("new".to_owned()), Some("h"), 1),
        Some(DaemonMessage::Change(Ingest::Content(ContentChange::FileChanged { .. }), _))
    ));
    assert!(matches!(
        manager.check_tracked(0, &file, DiskState::Present("h".to_owned()), None, 1),
        Some(DaemonMessage::Change(Ingest::Content(ContentChange::FileChanged { .. }), _))
    ));
    assert!(!manager.is_untracked(0, "/t/a"));
    assert!(manager.is_untracked(0, "/t/b"));
    assert!(matches!(
        manager.check_tracked(0, &file, DiskState::Missing, Some("h"), 33),
        Some(DaemonMessage::Change(
            Ingest::Meta(Change::FileDeleted { file_id: F, deleted_at: 33 }),
            _
        ))
    ));
    assert!(manager.is_untracked(0, "/t/a"));
}

#[test]
fn a_universal_directory_knows_its_files_by_identifier() {
    let manager = SyncDirectoryManager::new(vec![holding(universal("/u"), F, &F.to_string())]);
    assert!(!manager.is_untracked(0, &format!("/u/{}", F.to_string())));
    assert!(manager.is_untracked(0, &format!("/u/{}", G.to_string())));
    assert!(manager.is_untracked(0, "/u/photo.jpg"));
    assert!(!manager.is_untracked(3, "/u/photo.jpg"));
}

#[test]
fn reads_try_every_copy_in_order() {
    let mut manager = SyncDirectoryManager::new(vec![
        holding(tagged("/a", vec![]), F, "x"),
        tagged("/b", vec![]),
        holding(tagged("/c/", vec![]), F, "y"),
    ]);
    match manager.handle_command(SyncDirectoryCommand::ReadFile { file_id: F, respond_to: 4 }) {
        Ok(DiskStep::Read { respond_to: 4, candidates }) => assert_eq!(
            candidates,
            vec![
                (PhysicalPath::new("x"), "/a/x".to_owned()),
                (PhysicalPath::new("y"), "/c/y".to_owned()),
            ]
        ),
        other => panic!("unexpected outcome {other:?}"),
    }
    assert!(matches!(
        manager.handle_command(SyncDirectoryCommand::LocalPath { file_id: F, respond_to: 5 }),
        Ok(DiskStep::AnswerPath { respond_to: 5, path: Some(path) }) if path == "/a/x"
    ));
    assert!(matches!(
        manager.handle_command(SyncDirectoryCommand::LocalPath { file_id: G, respond_to: 5 }),
        Ok(DiskStep::AnswerPath { respond_to: 5, path: None })
    ));
}

#[test]
fn rows_are_found_by_name_and_by_pattern() {
    let mut database = SyncDirectoryDatabase::new();
    database.add_file(F, &PhysicalPath::new("Photos/a")).unwrap();
    database.add_file(G, &PhysicalPath::new("photosx/b")).unwrap();
    assert_eq!(
        database.add_file(F, &PhysicalPath::new("z")),
        Err(DatabaseError::FailedToExecuteCommand)
    );
    assert_eq!(database.get_file_id(&PhysicalPath::new("Photos/a")), Ok(F));
    assert_eq!(
        database.get_file_id(&PhysicalPath::new("photos/a")),
        Err(DatabaseError::MissingFile)
    );
    // The name is a pattern: letters match in either case, `_` any character.
    let at = |name: &str| -> Vec<FileId> {
        database
            .get_all_files_at(&PhysicalPath::new(name))
            .unwrap()
            .into_iter()
            .map(|file| file.file_id)
            .collect()
    };
    assert_eq!(at("photos"), vec![F, G]);
    assert_eq!(at("photos/"), vec![F]);
    assert_eq!(at("photos_"), vec![F, G]);
    assert_eq!(at("%b"), vec![G]);
    assert_eq!(at("q"), Vec::<FileId>::new());
    assert_eq!(database.get_all_files().unwrap().len(), 2);
    database.update_file_physical_path(G, &PhysicalPath::new("c")).unwrap();
    assert_eq!(database.get_file(G).unwrap().physical_path, PhysicalPath::new("c"));
    database.remove_file_by_id(G).unwrap();
    assert_eq!(database.get_file(G), Err(DatabaseError::MissingFile));
}
