use slowpoke_store::StoreError;
use slowpoke_store::commands::{Command, CommandReply, command_handler};
use slowpoke_store::factory::SqliteDatabasePoolFactory;
use slowpoke_store::policy::{DedupOutcome, clean_databases, process_forward_message, process_link_message};
use slowpoke_store::settings_db::SettingsDb;
use slowpoke_store::store::ChatDatabase;
use slowpoke_store::utils::{SlowpokeReply, is_sender_an_owner, send_slowpoke};

const WINDOW: u64 = 259200;

#[test]
fn forward_scenario_full_lifecycle() {
    // Tenant 42 has no prior forward of message 100.
    let mut factory = SqliteDatabasePoolFactory::new(String::from("/var/db"), 5, WINDOW);
    let h = factory.create(42);
    assert!(!factory.store(h).check_forward_message(100, 1000));
    // Recording succeeds, and the forward is then seen as recent.
    let r = process_forward_message(&mut factory, 42, 100, 7, 1000);
    assert_eq!(r, DedupOutcome::New);
    assert!(factory.store(h).check_forward_message(100, 1000));
    assert!(factory.store(h).check_forward_message(100, 1000 + WINDOW));
    // After the window elapses and one purge runs, the forward is gone.
    let names = vec![String::from("42.db")];
    clean_databases(&mut factory, &names, 1000 + WINDOW + 1);
    assert!(!factory.store(h).check_forward_message(100, 1000 + WINDOW + 1));
    assert_eq!(factory.store(h).forwards.len(), 0);
}

#[test]
fn duplicate_forward_is_reported() {
    let mut factory = SqliteDatabasePoolFactory::new(String::from("/var/db"), 5, WINDOW);
    assert_eq!(process_forward_message(&mut factory, 1, 500, 7, 100), DedupOutcome::New);
    assert_eq!(process_forward_message(&mut factory, 1, 500, 8, 150), DedupOutcome::Duplicate);
    // Exactly one record was persisted.
    let h = factory.create(1);
    assert_eq!(factory.store(h).forwards.len(), 1);
    // The record keeps its first-sighting timestamp.
    assert_eq!(factory.store(h).forwards[0].seen_at, 100);
}

#[test]
fn stale_conflict_is_absorbed() {
    // A stale record still holds the primary key: the insert conflict is
    // absorbed as an outcome, never an error.
    let mut factory = SqliteDatabasePoolFactory::new(String::from("/var/db"), 5, 10);
    assert_eq!(process_forward_message(&mut factory, 1, 500, 7, 0), DedupOutcome::New);
    assert_eq!(process_forward_message(&mut factory, 1, 500, 7, 100), DedupOutcome::Conflict);
    let h = factory.create(1);
    assert_eq!(factory.store(h).forwards.len(), 1);
}

#[test]
fn concurrent_recorders_leave_one_record() {
    // Two check-then-insert racers for the same id: the loser's insert
    // fails with AlreadyRecorded and exactly one record remains.
    let mut db = ChatDatabase::new(WINDOW);
    assert!(db.add_forwarded_message(100, 7, 50).is_ok());
    assert_eq!(db.add_forwarded_message(100, 9, 51), Err(StoreError::AlreadyRecorded));
    assert_eq!(db.forwards.len(), 1);
    assert_eq!(db.forwards[0].sender_id, 7);
}

#[test]
fn purge_is_idempotent() {
    let mut db = ChatDatabase::new(10);
    db.add_forwarded_message(1, 7, 0).unwrap();
    db.add_forwarded_message(2, 7, 100).unwrap();
    db.record_link("https://example.com/a", 0).unwrap();
    let first = db.clean_old_messages(100);
    assert_eq!(first, (1, 1));
    let second = db.clean_old_messages(100);
    assert_eq!(second, (0, 0));
    assert_eq!(db.forwards.len(), 1);
    assert_eq!(db.forwards[0].message_id, 2);
}

#[test]
fn retention_boundary_is_inclusive() {
    // A record seen at t stays recent through t + window and expires after.
    let mut db = ChatDatabase::new(10);
    db.add_forwarded_message(1, 7, 100).unwrap();
    assert!(db.check_forward_message(1, 110));
    assert!(!db.check_forward_message(1, 111));
    assert_eq!(db.clean_old_messages(110), (0, 0));
    assert_eq!(db.clean_old_messages(111), (1, 0));
}

#[test]
fn link_dedup_mirrors_forwards() {
    let mut factory = SqliteDatabasePoolFactory::new(String::from("/var/db"), 5, WINDOW);
    assert_eq!(process_link_message(&mut factory, 3, "https://example.com/x", 10), DedupOutcome::New);
    assert_eq!(
        process_link_message(&mut factory, 3, "https://example.com/x", 20),
        DedupOutcome::Duplicate
    );
    assert_eq!(process_link_message(&mut factory, 3, "https://example.com/y", 30), DedupOutcome::New);
    let h = factory.create(3);
    assert_eq!(factory.store(h).links.len(), 2);
    assert!(factory.store(h).has_recent_link("https://example.com/y", 30));
    assert!(!factory.store(h).has_recent_link("https://example.com/z", 30));
}

#[test]
fn factory_caches_one_store_per_tenant() {
    let mut factory = SqliteDatabasePoolFactory::new(String::from("/var/db"), 5, WINDOW);
    let h1 = factory.create(7);
    let h2 = factory.create(8);
    let h3 = factory.create(7);
    assert_eq!(h1, h3);
    assert_ne!(h1, h2);
    assert_eq!(factory.cached_tenant_count(), 2);
    // The reused handle sees the records written through the first one.
    process_forward_message(&mut factory, 7, 1, 2, 3);
    assert!(factory.store(h3).check_forward_message(1, 3));
}

#[test]
fn sweep_spares_unlisted_tenants_and_creates_listed_ones() {
    let mut factory = SqliteDatabasePoolFactory::new(String::from("/var/db"), 5, 10);
    process_forward_message(&mut factory, 1, 100, 7, 0);
    process_forward_message(&mut factory, 2, 200, 7, 0);
    // Only tenant 1 is on disk; tenant 9 appears there for the first time.
    let names = vec![String::from("1.db"), String::from("9.db"), String::from("junk.txt")];
    clean_databases(&mut factory, &names, 1000);
    let h1 = factory.create(1);
    let h2 = factory.create(2);
    let h9 = factory.create(9);
    assert_eq!(factory.store(h1).forwards.len(), 0);
    assert_eq!(factory.store(h2).forwards.len(), 1);
    assert_eq!(factory.store(h9).forwards.len(), 0);
    assert_eq!(factory.cached_tenant_count(), 3);
}

#[test]
fn settings_get_set_overwrite() {
    let mut settings = SettingsDb::new();
    assert_eq!(settings.get_setting("image_file_id"), Err(StoreError::NotFound));
    settings.add_setting("image_file_id", "file-1");
    assert_eq!(settings.get_setting("image_file_id"), Ok(String::from("file-1")));
    settings.add_setting("image_file_id", "file-2");
    assert_eq!(settings.get_setting("image_file_id"), Ok(String::from("file-2")));
    // Other keys stay independent.
    settings.add_setting("greeting", "hello");
    assert_eq!(settings.get_setting("image_file_id"), Ok(String::from("file-2")));
    assert_eq!(settings.get_setting("greeting"), Ok(String::from("hello")));
    assert_eq!(settings.get_setting("missing"), Err(StoreError::NotFound));
}

#[test]
fn slowpoke_reply_uses_configured_image() {
    let mut settings = SettingsDb::new();
    match send_slowpoke(&settings) {
        SlowpokeReply::NoAssetConfigured => {}
        SlowpokeReply::Photo(_) => panic!("no image was configured"),
    }
    settings.add_setting("image_file_id", "photo-42");
    match send_slowpoke(&settings) {
        SlowpokeReply::Photo(file_id) => assert_eq!(file_id, "photo-42"),
        SlowpokeReply::NoAssetConfigured => panic!("an image was configured"),
    }
}

#[test]
fn ownership_check() {
    assert!(is_sender_an_owner(&Some(99), 99));
    assert!(!is_sender_an_owner(&Some(98), 99));
    assert!(!is_sender_an_owner(&None, 99));
}

#[test]
fn commands_reply_and_set_image() {
    let mut settings = SettingsDb::new();
    let owner = 99u64;
    assert_eq!(
        command_handler(&Command::About, Some(1), owner, &None, &mut settings),
        CommandReply::AboutText
    );
    assert_eq!(
        command_handler(&Command::Help, Some(1), owner, &None, &mut settings),
        CommandReply::HelpText
    );
    assert_eq!(
        command_handler(&Command::Help, Some(owner), owner, &None, &mut settings),
        CommandReply::HelpTextForAdmin
    );
    assert_eq!(
        command_handler(&Command::SetImage, Some(1), owner, &None, &mut settings),
        CommandReply::PermissionDenied
    );
    assert_eq!(
        command_handler(&Command::SetImage, Some(owner), owner, &None, &mut settings),
        CommandReply::MissedReplyMessage
    );
    assert_eq!(
        command_handler(&Command::SetImage, Some(owner), owner, &Some(None), &mut settings),
        CommandReply::MissedPhotoInMessage
    );
    assert_eq!(
        command_handler(
            &Command::SetImage,
            Some(owner),
            owner,
            &Some(Some(String::from("photo-7"))),
            &mut settings,
        ),
        CommandReply::ImageUpdated
    );
    assert_eq!(settings.get_setting("image_file_id"), Ok(String::from("photo-7")));
}
