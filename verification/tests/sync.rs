use optimistic_sync::{
    ChainAction, ChainStateUpdate, Config, FinishRequestOutcome, HeaderVerifySuccess,
    OptimisticHeadersSync, RequestAction, RequestFail, RequestId, RequestSuccessBlock, SourceId,
    VerificationStep, VerifyError,
};

type TestSync = OptimisticHeadersSync<&'static str, u32>;

fn chain(best: u64, finalized: u64) -> ChainStateUpdate {
    ChainStateUpdate {
        best_block_hash: [best as u8; 32],
        best_block_number: best,
        finalized_block_hash: [finalized as u8; 32],
        finalized_block_number: finalized,
    }
}

fn config(best: u64, granularity: u32, ahead: u32) -> Config {
    Config {
        chain_config: chain(best, best),
        sources_capacity: 4,
        blocks_request_granularity: granularity,
        download_ahead_blocks: ahead,
    }
}

fn sync_at(best: u64, granularity: u32, ahead: u32) -> TestSync {
    OptimisticHeadersSync::new(config(best, granularity, ahead))
}

fn block(header: u8) -> RequestSuccessBlock {
    RequestSuccessBlock { scale_encoded_header: vec![header], scale_encoded_justification: None }
}

fn justified(header: u8, justification: u8) -> RequestSuccessBlock {
    RequestSuccessBlock {
        scale_encoded_header: vec![header],
        scale_encoded_justification: Some(vec![justification]),
    }
}

fn insert(block_height: u64) -> Result<HeaderVerifySuccess, VerifyError> {
    Ok(HeaderVerifySuccess::Insert { block_height, is_new_best: true })
}

/// Starts the next request: its identifier, its source, its height and its number of blocks.
fn start(sync: &mut TestSync, user_data: &'static str) -> (RequestId, SourceId, u64, u32) {
    match sync.next_request_action(0) {
        Some(RequestAction::Start { source_id, start, block_height, num_blocks, .. }) => {
            (start.start(user_data), source_id, block_height, num_blocks)
        }
        _ => panic!("no request to start"),
    }
}

/// The next request to be cancelled: its identifier, its user data and its source.
fn cancel(sync: &mut TestSync) -> (RequestId, &'static str, SourceId) {
    match sync.next_request_action(0) {
        Some(RequestAction::Cancel { request_id, user_data, source_id, .. }) => {
            (request_id, user_data, source_id)
        }
        _ => panic!("no request to cancel"),
    }
}

/// The heights of all the requests that are started until there is nothing more to request.
fn all_heights(sync: &mut TestSync) -> Vec<u64> {
    let mut heights = Vec::new();
    loop {
        match sync.next_request_action(0) {
            Some(RequestAction::Start { start, block_height, .. }) => {
                start.start("any");
                heights.push(block_height);
            }
            Some(RequestAction::Cancel { .. }) => panic!("nothing to cancel"),
            None => return heights,
        }
    }
}

#[test]
fn nothing_is_requested_without_a_source() {
    let mut sync = sync_at(0, 5, 10);
    assert!(sync.next_request_action(0).is_none());
    let source = sync.add_source(7);
    let (_, source_id, block_height, num_blocks) = start(&mut sync, "first");
    assert_eq!((source_id, block_height, num_blocks), (source, 1, 5));
}

#[test]
fn requests_start_right_behind_the_best_block() {
    let mut sync = sync_at(100, 8, 20);
    sync.add_source(7);
    assert_eq!(all_heights(&mut sync), vec![101, 109, 117]);
}

#[test]
fn the_block_the_configured_number_ahead_is_requested() {
    let mut sync = sync_at(0, 5, 10);
    sync.add_source(7);
    // The second request ends at the block 10.
    assert_eq!(all_heights(&mut sync), vec![1, 6]);

    let mut sync = sync_at(0, 5, 11);
    sync.add_source(7);
    assert_eq!(all_heights(&mut sync), vec![1, 6, 11]);

    let mut sync = sync_at(0, 1, 2);
    sync.add_source(7);
    assert_eq!(all_heights(&mut sync), vec![1, 2]);
}

#[test]
fn one_request_is_started_even_without_download_ahead() {
    let mut sync = sync_at(41, 3, 0);
    sync.add_source(7);
    assert_eq!(all_heights(&mut sync), vec![42]);
}

#[test]
fn heights_up_to_the_largest_one_can_be_requested() {
    let mut sync = sync_at(u64::MAX - 10, 8, 10);
    sync.add_source(7);
    assert_eq!(all_heights(&mut sync), vec![u64::MAX - 9, u64::MAX - 1]);
}

#[test]
fn request_identifiers_are_numbered() {
    let mut sync = sync_at(0, 5, 20);
    sync.add_source(7);
    let (first, ..) = start(&mut sync, "first");
    let (second, ..) = start(&mut sync, "second");
    assert_eq!(format!("{:?}", first), "RequestId(0)");
    assert_eq!(format!("{:?}", second), "RequestId(1)");
    assert!(first < second);
}

struct Unprintable;

#[test]
fn a_request_to_start_is_printed_without_its_content() {
    let mut sync: OptimisticHeadersSync<Unprintable, Unprintable> =
        OptimisticHeadersSync::new(config(0, 5, 5));
    sync.add_source(Unprintable);
    match sync.next_request_action(0) {
        Some(RequestAction::Start { start, .. }) => assert_eq!(format!("{:?}", start), "Start"),
        _ => panic!("no request to start"),
    }
}

#[test]
fn an_action_is_printed_with_the_request_as_a_word() {
    let mut sync = sync_at(0, 5, 5);
    sync.add_source(7);
    assert_eq!(
        format!("{:?}", sync.next_request_action(0).unwrap()),
        "Start { source_id: SourceId(0), source: 7, start: Start, block_height: 1, num_blocks: 5 }"
    );
}

#[test]
fn a_request_that_is_not_started_is_offered_again() {
    let mut sync = sync_at(0, 5, 5);
    sync.add_source(7);
    match sync.next_request_action(0) {
        Some(RequestAction::Start { start, block_height, .. }) => {
            assert_eq!(block_height, 1);
            assert_eq!(format!("{:?}", start), "Start");
        }
        _ => panic!("no request to start"),
    }
    let (id, _, block_height, _) = start(&mut sync, "again");
    assert_eq!(block_height, 1);
    assert_eq!(format!("{:?}", id), "RequestId(0)");
    assert!(sync.next_request_action(0).is_none());
}

#[test]
fn the_user_data_of_a_source_can_be_changed() {
    let mut sync = sync_at(0, 5, 5);
    let source = sync.add_source(7);
    match sync.next_request_action(0) {
        Some(RequestAction::Start { source, start, .. }) => {
            assert_eq!(*source, 7);
            *source = 8;
            start.start("first");
        }
        _ => panic!("no request to start"),
    }
    assert_eq!(sync.remove_source(source).0, 8);
}

#[test]
fn a_failed_request_is_made_anew() {
    let mut sync = sync_at(0, 5, 10);
    let source = sync.add_source(7);
    let (first, ..) = start(&mut sync, "first");
    let (second, ..) = start(&mut sync, "second");
    match sync.finish_request(first, Err(RequestFail::BlocksUnavailable)) {
        (user_data, FinishRequestOutcome::SourcePunished(punished)) => {
            assert_eq!(user_data, "first");
            assert_eq!(*punished, 7);
            *punished = 9;
        }
        _ => panic!("the source is to be punished"),
    }
    let (third, source_id, block_height, num_blocks) = start(&mut sync, "third");
    assert_eq!((source_id, block_height, num_blocks), (source, 1, 5));
    assert!(third != first && third != second);
    let (user_data, requests) = sync.remove_source(source);
    assert_eq!(user_data, 9);
    assert_eq!(requests, vec![(third, "third"), (second, "second")]);
}

#[test]
fn a_removed_source_has_its_requests_cancelled() {
    let mut sync = sync_at(0, 5, 20);
    let gone = sync.add_source(7);
    let (first, ..) = start(&mut sync, "first");
    let (second, ..) = start(&mut sync, "second");
    let other = sync.add_source(8);
    assert!(gone != other);
    let (user_data, requests) = sync.remove_source(gone);
    assert_eq!(user_data, 7);
    assert_eq!(requests, vec![(first, "first"), (second, "second")]);

    let (third, source_id, block_height, _) = start(&mut sync, "third");
    assert_eq!((source_id, block_height), (other, 1));
    let (user_data, requests) = sync.remove_source(other);
    assert_eq!(user_data, 8);
    assert_eq!(requests, vec![(third, "third")]);
}

#[test]
fn requests_to_other_sources_outlive_a_removed_source() {
    let mut sync = sync_at(0, 5, 5);
    let first = sync.add_source(7);
    let (request, ..) = start(&mut sync, "kept");
    let second = sync.add_source(8);
    assert_eq!(sync.remove_source(second), (8, vec![]));
    match sync.finish_request(request, Ok(vec![block(1)])) {
        (user_data, FinishRequestOutcome::Queued) => assert_eq!(user_data, "kept"),
        _ => panic!("the blocks have arrived"),
    }
    assert_eq!(sync.remove_source(first), (7, vec![]));
}

#[test]
fn validity_of_identifiers_can_be_asked() {
    let mut sync = sync_at(0, 5, 5);
    assert!(sync.has_room());
    assert!(sync.ready_for_requests());
    let source = sync.add_source(7);
    assert!(sync.has_source(source));
    match sync.next_request_action(0) {
        Some(RequestAction::Start { start, .. }) => assert!(start.has_number()),
        _ => panic!("no request to start"),
    }
    let (request, ..) = start(&mut sync, "first");
    assert!(sync.has_request(request));
    sync.finish_request(request, Ok(vec![block(1)]));
    assert!(!sync.has_request(request));
    sync.remove_source(source);
    assert!(!sync.has_source(source));

    assert!(!sync_at(u64::MAX, 5, 0).ready_for_requests());
    assert!(!sync_at(u64::MAX - 5, 5, 6).ready_for_requests());
    assert!(sync_at(u64::MAX - 6, 5, 6).ready_for_requests());
}

#[test]
fn slots_are_used_again() {
    let mut sync = sync_at(0, 5, 5);
    let first = sync.add_source(1);
    let second = sync.add_source(2);
    let third = sync.add_source(3);
    assert_eq!(format!("{:?}", third), "SourceId(2)");
    sync.remove_source(first);
    sync.remove_source(second);
    assert_eq!(sync.add_source(4), second);
    assert_eq!(sync.add_source(5), first);
    assert_eq!(format!("{:?}", sync.add_source(6)), "SourceId(3)");
    assert_eq!(sync.remove_source(second).0, 4);
    assert_eq!(sync.remove_source(first).0, 5);
    assert_eq!(sync.remove_source(third).0, 3);
}

/// The source that is asked when the number `pick` has been drawn.
fn asked(sync: &mut TestSync, pick: usize) -> SourceId {
    match sync.next_request_action(pick) {
        Some(RequestAction::Start { source_id, .. }) => source_id,
        _ => panic!("no request to start"),
    }
}

#[test]
fn any_source_can_be_asked() {
    let mut sync = sync_at(0, 5, 20);
    let first = sync.add_source(1);
    let second = sync.add_source(2);
    let third = sync.add_source(3);
    assert_eq!(asked(&mut sync, 0), first);
    assert_eq!(asked(&mut sync, 1), second);
    assert_eq!(asked(&mut sync, 2), third);
    assert_eq!(asked(&mut sync, 3), first);
    assert_eq!(asked(&mut sync, 1_000_000), second);
    sync.remove_source(second);
    assert_eq!(asked(&mut sync, 0), first);
    assert_eq!(asked(&mut sync, 1), third);
    assert_eq!(asked(&mut sync, 2), first);
}

#[test]
fn only_the_first_response_is_processed() {
    let mut sync = sync_at(0, 5, 10);
    sync.add_source(7);
    assert!(sync.process_one().is_none());
    let (first, ..) = start(&mut sync, "first");
    let (second, ..) = start(&mut sync, "second");
    assert!(sync.process_one().is_none());
    sync.finish_request(second, Ok(vec![block(6)]));
    assert!(sync.process_one().is_none());
    sync.finish_request(first, Ok(vec![block(1)]));
    assert_eq!(sync.process_one().unwrap().progress.expected_height, 1);
    assert_eq!(sync.process_one().unwrap().progress.expected_height, 6);
    assert!(sync.process_one().is_none());
}

#[test]
fn blocks_in_order_are_inserted_one_by_one() {
    let mut sync = sync_at(0, 3, 3);
    sync.add_source(7);
    let (request, ..) = start(&mut sync, "first");
    sync.finish_request(request, Ok(vec![block(11), justified(12, 22), block(13)]));

    let verification = sync.process_one().unwrap();
    assert!(matches!(verification.step(), VerificationStep::Header(h) if *h == vec![11]));
    let (verification, action) = verification.header_verified(insert(1));
    assert_eq!(action, ChainAction::Insert);
    assert!(matches!(verification.step(), VerificationStep::Report));
    let update = verification.finish(chain(1, 0));
    assert_eq!(update.best_block_number, 1);

    let verification = sync.process_one().unwrap();
    assert!(matches!(verification.step(), VerificationStep::Header(h) if *h == vec![12]));
    let (verification, action) = verification.header_verified(insert(2));
    assert_eq!(action, ChainAction::Insert);
    assert!(matches!(verification.step(), VerificationStep::Justification(j) if *j == vec![22]));
    let (verification, action) = verification.justification_verified(Ok(()));
    assert_eq!(action, ChainAction::Apply);
    assert!(matches!(verification.step(), VerificationStep::Report));
    verification.finish(chain(2, 2));

    let verification = sync.process_one().unwrap();
    assert_eq!(verification.progress.expected_height, 3);
    assert!(matches!(verification.step(), VerificationStep::Header(h) if *h == vec![13]));
    let (verification, action) =
        verification.header_verified(Ok(HeaderVerifySuccess::Duplicate));
    assert_eq!(action, ChainAction::Keep);
    assert!(matches!(verification.step(), VerificationStep::Report));

    let update = verification.finish(chain(3, 2));
    assert_eq!(update.best_block_number, 3);
    assert_eq!(update.best_block_hash, [3; 32]);
    assert_eq!(update.finalized_block_number, 2);
    assert_eq!(update.finalized_block_hash, [2; 32]);
    assert!(sync.process_one().is_none());

    // The blocks behind the new best block are next.
    assert_eq!(all_heights(&mut sync), vec![4]);
}

#[test]
fn no_block_is_left_out_while_a_response_is_verified() {
    let mut sync = sync_at(0, 3, 6);
    sync.add_source(7);
    let (first, ..) = start(&mut sync, "first");
    let (second, ..) = start(&mut sync, "second");
    sync.finish_request(first, Ok(vec![block(1), block(2), block(3)]));
    sync.finish_request(second, Ok(vec![block(4), block(5), block(6)]));
    for height in 1..=4 {
        let (verification, action) = sync.process_one().unwrap().header_verified(insert(height));
        assert_eq!(action, ChainAction::Insert);
        verification.finish(chain(height, 0));
    }
    // The blocks 5 and 6 wait for their verification.
    assert_eq!(all_heights(&mut sync), vec![7, 10]);
    assert_eq!(sync.process_one().unwrap().progress.expected_height, 5);
}

#[test]
fn each_block_ahead_is_requested_once_while_blocks_are_verified() {
    let mut sync = sync_at(0, 3, 7);
    sync.add_source(7);
    let mut requests: Vec<(RequestId, u64)> = Vec::new();
    for best in 0..20u64 {
        while let Some(action) = sync.next_request_action(0) {
            match action {
                RequestAction::Start { start, block_height, num_blocks, .. } => {
                    assert_eq!(block_height, 1 + 3 * requests.len() as u64);
                    assert_eq!(num_blocks, 3);
                    assert!(block_height <= best + 7);
                    requests.push((start.start("any"), block_height));
                }
                RequestAction::Cancel { .. } => panic!("nothing to cancel"),
            }
        }
        assert!(requests[requests.len() - 1].1 + 3 > best + 7);
        if best % 3 == 0 {
            let (id, block_height) = requests[best as usize / 3];
            assert_eq!(block_height, best + 1);
            sync.finish_request(id, Ok(vec![block(0), block(1), block(2)]));
        }
        let verification = sync.process_one().unwrap();
        let (verification, action) = verification.header_verified(insert(best + 1));
        assert_eq!(action, ChainAction::Insert);
        verification.finish(chain(best + 1, 0));
    }
}

#[test]
fn blocks_in_excess_are_verified_too() {
    let mut sync = sync_at(0, 1, 2);
    sync.add_source(7);
    let (first, ..) = start(&mut sync, "first");
    let (second, ..) = start(&mut sync, "second");
    sync.finish_request(first, Ok(vec![block(1), block(2), block(3)]));
    for height in 1..=3 {
        let verification = sync.process_one().unwrap();
        assert_eq!(verification.progress.expected_height, height);
        let (verification, action) = verification.header_verified(insert(height));
        assert_eq!(action, ChainAction::Insert);
        verification.finish(chain(height, 0));
    }
    assert!(sync.process_one().is_none());
    assert!(sync.has_request(second));
}

#[test]
fn a_response_without_blocks_is_over_at_once() {
    let mut sync = sync_at(0, 3, 3);
    sync.add_source(7);
    let (request, ..) = start(&mut sync, "first");
    sync.finish_request(request, Ok(vec![]));
    let verification = sync.process_one().unwrap();
    assert!(matches!(verification.step(), VerificationStep::Report));
    verification.finish(chain(0, 0));
    assert_eq!(all_heights(&mut sync), vec![1]);
}

/// A syncing with two sources, of which the first one has sent two blocks and is asked for more.
fn with_response() -> (TestSync, SourceId, SourceId, RequestId, RequestId) {
    let mut sync = sync_at(0, 2, 6);
    let first = sync.add_source(7);
    let second = sync.add_source(8);
    let (one, ..) = start(&mut sync, "one");
    let (two, ..) = start(&mut sync, "two");
    let (three, ..) = start(&mut sync, "three");
    sync.finish_request(one, Ok(vec![block(1), justified(2, 2)]));
    (sync, first, second, two, three)
}

/// Checks that everything is cancelled and requested anew, and not from the source `first`.
fn assert_refused(
    mut sync: TestSync,
    first: SourceId,
    second: SourceId,
    two: RequestId,
    three: RequestId,
) {
    assert!(sync.process_one().is_none());
    assert_eq!(cancel(&mut sync), (three, "three", first));
    assert_eq!(cancel(&mut sync), (two, "two", first));
    let (_, source_id, block_height, num_blocks) = start(&mut sync, "anew");
    assert_eq!((source_id, block_height, num_blocks), (second, 1, 2));
    // The ban lasts until the source is removed.
    sync.remove_source(second);
    assert!(sync.next_request_action(0).is_none());
    assert_eq!(sync.remove_source(first), (7, vec![]));
    assert_eq!(sync.add_source(9), first);
    assert_eq!(start(&mut sync, "last").1, first);
}

#[test]
fn a_refused_header_leads_to_another_source() {
    let (mut sync, first, second, two, three) = with_response();
    let (verification, action) = sync.process_one().unwrap().header_verified(Err(VerifyError));
    assert_eq!(action, ChainAction::Clear);
    assert!(matches!(verification.step(), VerificationStep::Report));
    verification.finish(chain(0, 0));
    assert_refused(sync, first, second, two, three);
}

#[test]
fn a_header_at_another_height_leads_to_another_source() {
    let (mut sync, first, second, two, three) = with_response();
    let (verification, action) = sync.process_one().unwrap().header_verified(insert(2));
    assert_eq!(action, ChainAction::Clear);
    verification.finish(chain(0, 0));
    assert_refused(sync, first, second, two, three);
}

#[test]
fn a_header_that_is_not_the_best_leads_to_another_source() {
    let (mut sync, first, second, two, three) = with_response();
    let (verification, action) = sync.process_one().unwrap().header_verified(Ok(
        HeaderVerifySuccess::Insert { block_height: 1, is_new_best: false },
    ));
    assert_eq!(action, ChainAction::Clear);
    verification.finish(chain(0, 0));
    assert_refused(sync, first, second, two, three);
}

#[test]
fn a_refused_justification_leads_to_another_source() {
    let (mut sync, first, second, two, three) = with_response();
    let (verification, action) = sync.process_one().unwrap().header_verified(insert(1));
    assert_eq!(action, ChainAction::Insert);
    verification.finish(chain(1, 0));
    let (verification, action) = sync.process_one().unwrap().header_verified(insert(2));
    assert_eq!(action, ChainAction::Insert);
    let (verification, action) = verification.justification_verified(Err(VerifyError));
    assert_eq!(action, ChainAction::Clear);
    verification.finish(chain(0, 0));
    assert_refused(sync, first, second, two, three);
}

#[test]
fn requests_can_be_cancelled_at_any_height() {
    let (mut sync, _, _, two, three) = with_response();
    let (verification, action) = sync.process_one().unwrap().header_verified(Err(VerifyError));
    assert_eq!(action, ChainAction::Clear);
    verification.finish(chain(u64::MAX, 0));
    assert!(sync.ready_for_requests());
    assert_eq!(cancel(&mut sync).0, three);
    assert!(sync.ready_for_requests());
    assert_eq!(cancel(&mut sync).0, two);
    assert!(!sync.ready_for_requests());
}

#[test]
fn nobody_is_banned_for_a_source_that_is_gone() {
    let (mut sync, first, second, _, _) = with_response();
    assert_eq!(sync.remove_source(first).1.len(), 2);
    let newcomer = sync.add_source(9);
    assert_eq!(newcomer, first);
    let (verification, action) = sync.process_one().unwrap().header_verified(Err(VerifyError));
    assert_eq!(action, ChainAction::Clear);
    verification.finish(chain(0, 0));
    let (_, source_id, block_height, _) = start(&mut sync, "anew");
    assert_eq!((source_id, block_height), (newcomer, 1));
    assert_eq!(sync.remove_source(second), (8, vec![]));
}

#[test]
fn cancelled_queue_starts_over_behind_the_best_block() {
    let (mut sync, _, _, two, three) = with_response();
    let (verification, action) = sync.process_one().unwrap().header_verified(insert(1));
    assert_eq!(action, ChainAction::Insert);
    verification.finish(chain(1, 1));
    let (verification, action) = sync.process_one().unwrap().header_verified(insert(7));
    assert_eq!(action, ChainAction::Clear);
    // The first block was finalized in the meantime.
    verification.finish(chain(1, 1));
    assert_eq!(cancel(&mut sync).0, three);
    assert_eq!(cancel(&mut sync).0, two);
    assert_eq!(all_heights(&mut sync), vec![2, 4, 6]);
}
