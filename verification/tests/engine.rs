//! End-to-end and unit tests of the syncing engines, driven with scripted
//! sources and verdicts.

use blocksync::all_forks::{
    AddBlock, AddSource, AllForksSync, BlockAnnounceOutcome, Config, FinalityProofVerifyOutcome,
    Header, HeaderVerifyOutcome, ProcessOne,
};
use blocksync::all_forks::AncestrySearchResponseError;
use blocksync::finality_slot::{FinalityProof, FinalityProofs, SourcePendingJustificationProofs};
use blocksync::optimistic;
use blocksync::pending_blocks::{PendingBlocks, RequestParams, UnverifiedBlockState};

fn h(n: u64) -> Vec<u8> {
    let mut v = vec![0u8; 32];
    v[..8].copy_from_slice(&n.to_le_bytes());
    v
}

fn config(finalized_height: u64, max_disjoint: usize) -> Config {
    Config {
        finalized_block_height: finalized_height,
        finalized_block_hash: h(finalized_height),
        block_number_bytes: 4,
        allow_unknown_consensus_engines: true,
        sources_capacity: 4,
        blocks_capacity: 32,
        max_disjoint_headers: max_disjoint,
        max_requests_per_block: 2,
        full: false,
        banned_blocks: Vec::new(),
    }
}

fn announce_and_insert(sync: &mut AllForksSync<u32, u32, u32>, sid: blocksync::pending_blocks::SourceId, header: Header, is_best: bool) {
    match sync.block_announce(sid, header, is_best) {
        BlockAnnounceOutcome::Unknown(tok) => tok.insert_and_update_source(sync, 0),
        BlockAnnounceOutcome::Known(tok) => tok.update_source_and_block(sync),
        BlockAnnounceOutcome::AlreadyInChain(tok) => tok.update_source_and_block(sync),
        _ => panic!("unexpected announce outcome"),
    }
}

#[test]
fn finality_slot_keeps_extremes() {
    let mut slot = SourcePendingJustificationProofs::Empty;
    slot.insert(5, FinalityProofs::GrandpaCommit(vec![5]));
    slot.insert(9, FinalityProofs::GrandpaCommit(vec![9]));
    slot.insert(7, FinalityProofs::GrandpaCommit(vec![7]));
    match &slot {
        SourcePendingJustificationProofs::Two { low_target_height, high_target_height, .. } => {
            assert_eq!(*low_target_height, 5);
            assert_eq!(*high_target_height, 9);
        }
        _ => panic!("expected two stored proofs"),
    }
    slot.insert(12, FinalityProofs::GrandpaCommit(vec![12]));
    match &slot {
        SourcePendingJustificationProofs::Two { low_target_height, high_target_height, .. } => {
            assert_eq!(*low_target_height, 5);
            assert_eq!(*high_target_height, 12);
        }
        _ => panic!("expected two stored proofs"),
    }
    // the highest target comes out first
    match slot.take_one() {
        Some(FinalityProof::GrandpaCommit(blob)) => assert_eq!(blob, vec![12]),
        _ => panic!("expected the high commit"),
    }
    match slot.take_one() {
        Some(FinalityProof::GrandpaCommit(blob)) => assert_eq!(blob, vec![5]),
        _ => panic!("expected the low commit"),
    }
    assert!(slot.is_none());
}

#[test]
fn justifications_pop_one_at_a_time() {
    let mut slot = SourcePendingJustificationProofs::Empty;
    slot.insert(
        8,
        FinalityProofs::Justifications(vec![(vec![1], vec![10]), (vec![2], vec![20])]),
    );
    match slot.take_one() {
        Some(FinalityProof::Justification((engine, blob))) => {
            assert_eq!(engine, vec![2]);
            assert_eq!(blob, vec![20]);
        }
        _ => panic!("expected a justification"),
    }
    assert!(!slot.is_none());
    match slot.take_one() {
        Some(FinalityProof::Justification((engine, _))) => assert_eq!(engine, vec![1]),
        _ => panic!("expected the second justification"),
    }
    assert!(slot.is_none());
}

#[test]
fn insert_then_remove_unverified_is_noop() {
    let mut pending: PendingBlocks<u32, u32, u32> = PendingBlocks::new(0, 100, 2);
    assert_eq!(pending.num_unverified_blocks(), 0);
    pending.insert_unverified_block(5, h(5), UnverifiedBlockState::HeightHashKnown, 7);
    assert!(pending.contains_unverified_block(5, &h(5)));
    let ud = pending.remove_unverified_block(5, &h(5));
    assert_eq!(ud, 7);
    assert_eq!(pending.num_unverified_blocks(), 0);
    assert!(!pending.contains_unverified_block(5, &h(5)));
}

#[test]
fn known_block_registration_is_idempotent() {
    let mut pending: PendingBlocks<u32, u32, u32> = PendingBlocks::new(0, 100, 2);
    let sid = pending.add_source(1, 10, h(10));
    pending.add_known_block_to_source(sid, 5, h(5));
    assert!(pending.source_knows_non_finalized_block(sid, 5, &h(5)));
    pending.add_known_block_to_source(sid, 5, h(5));
    assert!(pending.source_knows_non_finalized_block(sid, 5, &h(5)));
    assert!(!pending.source_knows_non_finalized_block(sid, 6, &h(6)));
}

#[test]
fn request_counters_track_the_table() {
    let mut pending: PendingBlocks<u32, u32, u32> = PendingBlocks::new(0, 100, 2);
    let sid = pending.add_source(1, 10, h(10));
    let params = |height: u64| RequestParams {
        first_block_hash: h(height),
        first_block_height: height,
        num_blocks: height,
    };
    let r1 = pending.add_request(sid, params(10), 0);
    let _r2 = pending.add_request(sid, params(9), 0);
    assert_eq!(pending.source_num_ongoing_requests(sid), 2);
    pending.finish_request(r1);
    assert_eq!(pending.source_num_ongoing_requests(sid), 1);
}

#[test]
fn removing_a_source_drains_its_requests() {
    let mut pending: PendingBlocks<u32, u32, u32> = PendingBlocks::new(0, 100, 2);
    let sid = pending.add_source(1, 10, h(10));
    let other = pending.add_source(2, 8, h(8));
    pending.add_request(
        sid,
        RequestParams { first_block_hash: h(10), first_block_height: 10, num_blocks: 10 },
        41,
    );
    pending.add_request(
        other,
        RequestParams { first_block_hash: h(8), first_block_height: 8, num_blocks: 8 },
        42,
    );
    let (ud, drained) = pending.remove_source(sid);
    assert_eq!(ud, 1);
    assert_eq!(drained.len(), 1);
    assert_eq!(drained[0].2, 41);
    assert_eq!(pending.source_num_ongoing_requests(other), 1);
}

#[test]
fn linear_catch_up() {
    let mut sync: AllForksSync<u32, u32, u32> = AllForksSync::new(config(0, 1024));
    let sid = match sync.prepare_add_source(10, h(110)) {
        AddSource::UnknownBestBlock(tok) => tok.add_source_and_insert_block(&mut sync, 0, 0),
        _ => panic!("expected an unknown best block"),
    };
    let desired = sync.desired_requests();
    assert!(!desired.is_empty());
    assert_eq!(desired[0].1.first_block_height, 10);
    let rid = sync.add_request(sid, desired.into_iter().next().unwrap().1, 0);
    let (_ud, mut search) = sync.finish_ancestry_search(rid);
    // blocks 10 down to 1; block k has hash h(100 + k), the parent of block
    // 1 being the finalized block
    for k in (1..=10u64).rev() {
        let parent = if k == 1 { h(0) } else { h(100 + k - 1) };
        let header = Header { number: k, hash: h(100 + k), parent_hash: parent };
        search = match search.add_block(header, Vec::new()) {
            Ok(AddBlock::UnknownBlock(tok)) => tok.insert(0),
            Ok(AddBlock::AlreadyPending(tok)) => tok.replace(0).0,
            Ok(AddBlock::AlreadyInChain(tok)) => tok.replace(0).0,
            Err(_) => panic!("unexpected ancestry error"),
        };
    }
    let mut sync = search.finish();
    for _ in 0..10 {
        sync = match sync.process_one() {
            ProcessOne::HeaderVerify(v) => match v.perform(Ok(())) {
                HeaderVerifyOutcome::Success { sync, .. } => sync,
                HeaderVerifyOutcome::Error { .. } => panic!("verification rejected"),
            },
            ProcessOne::AllSync { .. } => panic!("ran out of work early"),
            ProcessOne::FinalityProofVerify(_) => panic!("no finality proof expected"),
        };
    }
    assert_eq!(sync.best_block_number(), 10);
    assert_eq!(sync.best_block_hash(), h(110));
    assert_eq!(sync.non_finalized_blocks_ancestry_order().len(), 10);
    match sync.process_one() {
        ProcessOne::AllSync { sync: s } => {
            assert_eq!(s.best_block_number(), 10);
        }
        _ => panic!("expected a quiescent machine"),
    }
}

#[test]
fn competing_forks() {
    let mut sync: AllForksSync<u32, u32, u32> = AllForksSync::new(config(4, 1024));
    let a = match sync.prepare_add_source(4, h(4)) {
        AddSource::OldBestBlock(tok) => tok.add_source(&mut sync, 0),
        _ => panic!("expected an old best block"),
    };
    let b = match sync.prepare_add_source(4, h(4)) {
        AddSource::OldBestBlock(tok) => tok.add_source(&mut sync, 0),
        _ => panic!("expected an old best block"),
    };
    // fork A: three blocks on top of the finalized block
    announce_and_insert(&mut sync, a, Header { number: 5, hash: h(105), parent_hash: h(4) }, false);
    announce_and_insert(&mut sync, a, Header { number: 6, hash: h(106), parent_hash: h(105) }, false);
    announce_and_insert(&mut sync, a, Header { number: 7, hash: h(107), parent_hash: h(106) }, true);
    // fork B: two blocks
    announce_and_insert(&mut sync, b, Header { number: 5, hash: h(205), parent_hash: h(4) }, false);
    announce_and_insert(&mut sync, b, Header { number: 6, hash: h(206), parent_hash: h(205) }, true);
    for _ in 0..5 {
        sync = match sync.process_one() {
            ProcessOne::HeaderVerify(v) => match v.perform(Ok(())) {
                HeaderVerifyOutcome::Success { sync, .. } => sync,
                HeaderVerifyOutcome::Error { .. } => panic!("verification rejected"),
            },
            _ => panic!("expected a header to verify"),
        };
    }
    assert_eq!(sync.best_block_number(), 7);
    assert_eq!(sync.best_block_hash(), h(107));
    assert_eq!(sync.non_finalized_blocks_ancestry_order().len(), 5);
    assert!(sync.source_knows_non_finalized_block(a, 7, &h(107)));
    assert!(sync.source_knows_non_finalized_block(b, 6, &h(206)));
    assert!(!sync.source_knows_non_finalized_block(b, 7, &h(107)));
}

#[test]
fn bad_block_is_marked_and_never_verified() {
    let mut sync: AllForksSync<u32, u32, u32> = AllForksSync::new(config(4, 1024));
    let a = match sync.prepare_add_source(4, h(4)) {
        AddSource::OldBestBlock(tok) => tok.add_source(&mut sync, 0),
        _ => panic!("expected an old best block"),
    };
    // height just above the finalized block, but not building on it
    announce_and_insert(&mut sync, a, Header { number: 5, hash: h(205), parent_hash: h(99) }, false);
    assert_eq!(sync.num_unverified_blocks(), 1);
    match sync.process_one() {
        ProcessOne::AllSync { sync: s } => {
            assert_eq!(s.num_unverified_blocks(), 1);
        }
        _ => panic!("a bad block must never be verified"),
    }
}

#[test]
fn commit_before_block() {
    let mut sync: AllForksSync<u32, u32, u32> = AllForksSync::new(config(4, 1024));
    let a = match sync.prepare_add_source(4, h(4)) {
        AddSource::OldBestBlock(tok) => tok.add_source(&mut sync, 0),
        _ => panic!("expected an old best block"),
    };
    // a commit targeting a block that is not known yet is stored for later
    assert!(sync.grandpa_commit_message(a, 20, &h(120), vec![9, 9], true).is_ok());
    match sync.process_one() {
        ProcessOne::AllSync { sync: s } => sync = s,
        _ => panic!("nothing should be verifiable yet"),
    }
    for k in 5..=20u64 {
        let parent = if k == 5 { h(4) } else { h(100 + k - 1) };
        announce_and_insert(&mut sync, a, Header { number: k, hash: h(100 + k), parent_hash: parent }, k == 20);
    }
    let mut finalized = None;
    loop {
        sync = match sync.process_one() {
            ProcessOne::HeaderVerify(v) => match v.perform(Ok(())) {
                HeaderVerifyOutcome::Success { sync, .. } => sync,
                HeaderVerifyOutcome::Error { .. } => panic!("verification rejected"),
            },
            ProcessOne::FinalityProofVerify(v) => {
                let (s, outcome) = v.perform(20, h(120), true);
                match outcome {
                    FinalityProofVerifyOutcome::NewFinalized { finalized_blocks, .. } => {
                        finalized = Some(finalized_blocks.len());
                    }
                    FinalityProofVerifyOutcome::GrandpaCommitPending => {}
                    _ => panic!("unexpected finality outcome"),
                }
                s
            }
            ProcessOne::AllSync { sync: s } => {
                sync = s;
                break;
            }
        };
    }
    assert_eq!(finalized, Some(16));
    assert_eq!(sync.finalized_block_height(), 20);
    assert_eq!(sync.best_block_number(), 20);
}

#[test]
fn ancestry_response_with_no_block_withdraws_knowledge() {
    let mut sync: AllForksSync<u32, u32, u32> = AllForksSync::new(config(0, 1024));
    let sid = match sync.prepare_add_source(5, h(105)) {
        AddSource::UnknownBestBlock(tok) => tok.add_source_and_insert_block(&mut sync, 0, 0),
        _ => panic!("expected an unknown best block"),
    };
    assert!(sync.source_knows_non_finalized_block(sid, 5, &h(105)));
    let rid = sync.add_request(
        sid,
        RequestParams { first_block_hash: h(105), first_block_height: 5, num_blocks: 5 },
        0,
    );
    let (_ud, search) = sync.finish_ancestry_search(rid);
    let sync = search.finish();
    assert!(!sync.source_knows_non_finalized_block(sid, 5, &h(105)));
}

#[test]
fn ancestry_response_off_the_finalized_chain() {
    let mut sync: AllForksSync<u32, u32, u32> = AllForksSync::new(config(4, 1024));
    let sid = match sync.prepare_add_source(5, h(205)) {
        AddSource::UnknownBestBlock(tok) => tok.add_source_and_insert_block(&mut sync, 0, 0),
        _ => panic!("expected an unknown best block"),
    };
    let rid = sync.add_request(
        sid,
        RequestParams { first_block_hash: h(205), first_block_height: 5, num_blocks: 1 },
        0,
    );
    let (_ud, search) = sync.finish_ancestry_search(rid);
    // height is just above the finalized block, parent is not the finalized
    // block
    match search.add_block(Header { number: 5, hash: h(205), parent_hash: h(99) }, Vec::new()) {
        Err((AncestrySearchResponseError::NotFinalizedChain, _)) => {}
        _ => panic!("expected the response to leave the finalized chain"),
    }
}

#[test]
fn disjoint_set_stays_bounded_under_flood() {
    let mut sync: AllForksSync<u32, u32, u32> = AllForksSync::new(config(0, 100));
    let a = match sync.prepare_add_source(1000, h(9999)) {
        AddSource::UnknownBestBlock(tok) => tok.add_source_and_insert_block(&mut sync, 0, 0),
        _ => panic!("expected an unknown best block"),
    };
    for i in 0..500u64 {
        announce_and_insert(
            &mut sync,
            a,
            Header { number: 10 + i, hash: h(10_000 + i), parent_hash: h(20_000 + i) },
            false,
        );
    }
    assert!(sync.num_unverified_blocks() <= 100);
}

fn opt_config(full: Option<optimistic::ConfigFull>) -> optimistic::Config {
    optimistic::Config {
        finalized_block_height: 0,
        finalized_block_hash: h(0),
        block_number_bytes: 4,
        sources_capacity: 4,
        blocks_capacity: 32,
        download_ahead_blocks: 4,
        full,
    }
}

#[test]
fn banning_the_last_source_unbans_everyone() {
    let mut sync: optimistic::OptimisticSync<u32, u32, u32> =
        optimistic::OptimisticSync::new(opt_config(None));
    let a = sync.add_source(1, 10);
    let b = sync.add_source(2, 10);
    let d = sync
        .desired_requests()
        .into_iter()
        .find(|d| d.source_id == a)
        .expect("source a should be usable");
    let rid = sync.insert_request(d, 0);
    sync.finish_request_failed(rid);
    let banned: Vec<bool> = sync.sources.iter().map(|s| s.banned).collect();
    assert_eq!(banned, vec![true, false]);
    let d = sync
        .desired_requests()
        .into_iter()
        .find(|d| d.source_id == b)
        .expect("source b should be usable");
    let rid = sync.insert_request(d, 0);
    sync.finish_request_failed(rid);
    // banning the last unbanned source lifts every ban
    let banned: Vec<bool> = sync.sources.iter().map(|s| s.banned).collect();
    assert_eq!(banned, vec![false, false]);
}

fn response_blocks(from: u64, n: u64) -> Vec<optimistic::RequestSuccessBlock<u32>> {
    (from..from + n)
        .map(|k| optimistic::RequestSuccessBlock {
            header: Header {
                number: k,
                hash: h(100 + k),
                parent_hash: if k == 1 { h(0) } else { h(100 + k - 1) },
            },
            scale_encoded_justifications: Vec::new(),
            scale_encoded_extrinsics: Vec::new(),
            user_data: 0,
        })
        .collect()
}

#[test]
fn optimistic_resets_on_bad_body() {
    let mut sync: optimistic::OptimisticSync<u32, u32, u32> = optimistic::OptimisticSync::new(
        opt_config(Some(optimistic::ConfigFull {
            finalized_runtime: optimistic::Runtime { handle: 7 },
        })),
    );
    let a = sync.add_source(1, 10);
    let _b = sync.add_source(2, 0);
    let mut next_to_verify = 1u64;
    let reset = 'outer: loop {
        // download the next window from the cooperative source
        let desired = sync.desired_requests();
        let d = desired.into_iter().find(|d| d.source_id == a);
        if let Some(d) = d {
            let from = d.block_height;
            let n = d.num_blocks;
            let rid = sync.insert_request(
                optimistic::RequestDetail { source_id: a, block_height: from, num_blocks: n },
                0,
            );
            sync.finish_request_success(rid, response_blocks(from, n));
        }
        loop {
            match sync.process_one() {
                optimistic::ProcessOne::VerifyBlock(v) => {
                    assert!(v.is_full_verification());
                    match v.start(true) {
                        optimistic::BlockVerification::BodyVerify(bv) => {
                            assert_eq!(bv.parent_runtime_handle(), 7);
                            // the runtime traps on the body of block seven
                            let verdict = if next_to_verify == 7 {
                                Err(())
                            } else {
                                Ok(optimistic::BodySuccess {
                                    storage_top_trie_changes: Vec::new(),
                                    new_runtime: None,
                                })
                            };
                            match bv.finish(verdict) {
                                optimistic::BlockVerification::NewBest { sync: s, new_best_number, .. } => {
                                    assert_eq!(new_best_number, next_to_verify);
                                    next_to_verify += 1;
                                    sync = s;
                                }
                                optimistic::BlockVerification::Reset {
                                    sync: s,
                                    previous_best_height,
                                    reason,
                                    ..
                                } => {
                                    sync = s;
                                    break 'outer (previous_best_height, reason);
                                }
                                optimistic::BlockVerification::BodyVerify(_) => unreachable!(),
                            }
                        }
                        _ => panic!("full mode must hand out a body verification"),
                    }
                }
                optimistic::ProcessOne::VerifyJustification(_) => {
                    panic!("no justification expected")
                }
                optimistic::ProcessOne::Idle { sync: s } => {
                    sync = s;
                    break;
                }
            }
        }
    };
    assert_eq!(reset.0, 6);
    assert!(matches!(reset.1, optimistic::ResetCause::HeaderBodyError));
    assert_eq!(sync.best_block_number(), 0);
    assert!(sync.best_to_finalized_storage_diff.is_empty());
    // the provider of the bad block is banned; the other source is not
    assert!(sync.sources.iter().any(|s| s.banned));
    assert!(!sync.sources.iter().all(|s| s.banned));
}

#[test]
fn hex_decoding_round_trip() {
    let text = b"0x0aff".to_vec();
    let bytes = blocksync::chain_spec::hex_decode(&text).expect("well-formed hex");
    assert_eq!(bytes, vec![0x0a, 0xff]);
    assert_eq!(blocksync::chain_spec::hex_encode(&bytes), text);
    assert!(blocksync::chain_spec::hex_decode(&b"0aff".to_vec()).is_none());
    assert!(blocksync::chain_spec::hex_decode(&b"0x0af".to_vec()).is_none());
    assert!(blocksync::chain_spec::hex_decode(&b"0x0AFF".to_vec()).is_some());
    assert!(blocksync::chain_spec::hash_hex_decode(&b"0x0aff".to_vec()).is_none());
    let mut long = b"0x".to_vec();
    long.extend(std::iter::repeat(b'a').take(64));
    let hash = blocksync::chain_spec::hash_hex_decode(&long).expect("a thirty-two byte hash");
    assert_eq!(hash.0.len(), 32);
}

#[test]
fn babe_genesis_output_decoding() {
    let mut out = Vec::new();
    out.extend_from_slice(&3000u64.to_le_bytes()); // slot duration, ignored
    out.extend_from_slice(&100u64.to_le_bytes()); // slots per epoch
    out.extend_from_slice(&1u64.to_le_bytes()); // c numerator
    out.extend_from_slice(&4u64.to_le_bytes()); // c denominator
    out.push(1 << 2); // compact length: one authority
    out.extend(std::iter::repeat(9u8).take(32)); // public key
    out.extend_from_slice(&5u64.to_le_bytes()); // weight
    out.extend(std::iter::repeat(3u8).take(32)); // randomness
    out.push(2); // primary and secondary VRF slots
    let cfg = blocksync::babe_config::decode_genesis_config(&out).expect("a well-formed output");
    assert_eq!(cfg.slots_per_epoch, 100);
    assert_eq!(cfg.c, (1, 4));
    assert_eq!(cfg.authorities.len(), 1);
    assert_eq!(cfg.authorities[0].weight, 5);
    assert_eq!(cfg.authorities[0].public_key, vec![9u8; 32]);
    assert_eq!(cfg.randomness, vec![3u8; 32]);
    assert!(matches!(
        cfg.allowed_slots,
        blocksync::babe_config::BabeAllowedSlots::PrimaryAndSecondaryVrfSlots
    ));
    // a trailing byte makes the output invalid
    out.push(0);
    assert!(blocksync::babe_config::decode_genesis_config(&out).is_err());
    // a zero epoch length is invalid
    let mut zero = out.clone();
    zero.pop();
    zero[8..16].copy_from_slice(&0u64.to_le_bytes());
    assert!(blocksync::babe_config::decode_genesis_config(&zero).is_err());
}

#[test]
fn optimistic_header_mode_advances_and_resets() {
    let mut sync: optimistic::OptimisticSync<u32, u32, u32> =
        optimistic::OptimisticSync::new(opt_config(None));
    let a = sync.add_source(1, 10);
    let _b = sync.add_source(2, 10);
    let rid = sync.insert_request(
        optimistic::RequestDetail { source_id: a, block_height: 1, num_blocks: 2 },
        0,
    );
    assert_eq!(sync.source_num_ongoing_requests(a), 1);
    let (_, outcome) = sync.finish_request_success(rid, response_blocks(1, 2));
    assert!(matches!(outcome, optimistic::FinishRequestOutcome::Queued));
    assert_eq!(sync.source_num_ongoing_requests(a), 0);
    // the first block verifies fine
    sync = match sync.process_one() {
        optimistic::ProcessOne::VerifyBlock(v) => match v.start(true) {
            optimistic::BlockVerification::NewBest { sync, new_best_number, .. } => {
                assert_eq!(new_best_number, 1);
                sync
            }
            _ => panic!("expected a new best block"),
        },
        _ => panic!("expected a block to verify"),
    };
    assert_eq!(sync.best_block_number(), 1);
    // the second one fails its header check: everything rolls back
    sync = match sync.process_one() {
        optimistic::ProcessOne::VerifyBlock(v) => match v.start(false) {
            optimistic::BlockVerification::Reset { sync, previous_best_height, reason, .. } => {
                assert_eq!(previous_best_height, 1);
                assert!(matches!(reason, optimistic::ResetCause::HeaderError));
                sync
            }
            _ => panic!("expected a reset"),
        },
        _ => panic!("expected a block to verify"),
    };
    assert_eq!(sync.best_block_number(), 0);
}

#[test]
fn requests_for_vanished_blocks_become_obsolete() {
    let mut sync: AllForksSync<u32, u32, u32> = AllForksSync::new(config(0, 1024));
    let sid = match sync.prepare_add_source(5, h(105)) {
        AddSource::UnknownBestBlock(tok) => tok.add_source_and_insert_block(&mut sync, 0, 0),
        _ => panic!("expected an unknown best block"),
    };
    let rid = sync.add_request(
        sid,
        RequestParams { first_block_hash: h(105), first_block_height: 5, num_blocks: 5 },
        0,
    );
    assert!(sync.obsolete_requests().is_empty());
    // announcing the block as bad makes the request useless
    announce_and_insert(&mut sync, sid, Header { number: 6, hash: h(106), parent_hash: h(105) }, false);
    let mut bad: AllForksSync<u32, u32, u32> = AllForksSync::new(Config {
        banned_blocks: vec![h(105)],
        ..config(0, 1024)
    });
    let bad_sid = match bad.prepare_add_source(5, h(205)) {
        AddSource::UnknownBestBlock(tok) => tok.add_source_and_insert_block(&mut bad, 0, 0),
        _ => panic!("expected an unknown best block"),
    };
    let bad_rid = bad.add_request(
        bad_sid,
        RequestParams { first_block_hash: h(105), first_block_height: 5, num_blocks: 5 },
        0,
    );
    // in the second machine the request's block is tracked nowhere
    assert_eq!(bad.obsolete_requests(), vec![bad_rid]);
    // in the first, the block is alive and wanted
    assert!(sync.obsolete_requests().is_empty());
    let _ = rid;
}

#[test]
fn announce_below_finality_still_updates_the_best_block() {
    let mut sync: AllForksSync<u32, u32, u32> = AllForksSync::new(config(4, 1024));
    let a = match sync.prepare_add_source(4, h(4)) {
        AddSource::OldBestBlock(tok) => tok.add_source(&mut sync, 0),
        _ => panic!("expected an old best block"),
    };
    match sync.block_announce(a, Header { number: 3, hash: h(103), parent_hash: h(102) }, true) {
        BlockAnnounceOutcome::TooOld { announce_block_height, finalized_block_height } => {
            assert_eq!(announce_block_height, 3);
            assert_eq!(finalized_block_height, 4);
        }
        _ => panic!("expected the announce to be below finality"),
    }
    let (best_height, best_hash) = sync.source_best_block(a);
    assert_eq!(best_height, 3);
    assert_eq!(best_hash, h(103));
}

#[test]
fn optimistic_remove_source_cancels_its_requests() {
    let mut sync: optimistic::OptimisticSync<u32, u32, u32> =
        optimistic::OptimisticSync::new(opt_config(None));
    let a = sync.add_source(1, 10);
    let b = sync.add_source(2, 10);
    let ra = sync.insert_request(
        optimistic::RequestDetail { source_id: a, block_height: 1, num_blocks: 2 },
        71,
    );
    let rb = sync.insert_request(
        optimistic::RequestDetail { source_id: b, block_height: 3, num_blocks: 2 },
        72,
    );
    assert_eq!(sync.source_num_ongoing_requests(a), 1);
    let (ud, cancelled) = sync.remove_source(a);
    assert_eq!(ud, 1);
    assert_eq!(cancelled.len(), 1);
    assert_eq!(cancelled[0].0, ra);
    assert_eq!(cancelled[0].1, 71);
    // the other source's request is untouched
    assert_eq!(sync.source_num_ongoing_requests(b), 1);
    let (_, outcome) = sync.finish_request_success(rb, response_blocks(3, 2));
    assert!(matches!(outcome, optimistic::FinishRequestOutcome::Queued));
}

#[test]
fn disassembling_hands_back_sources_and_requests() {
    let mut sync: optimistic::OptimisticSync<u32, u32, u32> =
        optimistic::OptimisticSync::new(opt_config(None));
    let a = sync.add_source(5, 10);
    let rid = sync.insert_request(
        optimistic::RequestDetail { source_id: a, block_height: 1, num_blocks: 2 },
        9,
    );
    let parts = sync.disassemble();
    assert_eq!(parts.finalized_block_height, 0);
    assert_eq!(parts.sources.len(), 1);
    assert_eq!(parts.sources[0].id, a);
    assert_eq!(parts.sources[0].user_data, 5);
    assert_eq!(parts.sources[0].best_block_number, 10);
    assert_eq!(parts.requests.len(), 1);
    assert_eq!(parts.requests[0], (rid, 9));
}

#[test]
fn next_key_composes_the_diff_with_finalized_storage() {
    let diff: Vec<(Vec<u8>, Option<Vec<u8>>)> = vec![
        (b"b".to_vec(), Some(b"1".to_vec())), // inserted by the best chain
        (b"d".to_vec(), None),                // erased by the best chain
    ];
    // the diff's inserted key comes before the finalized candidate
    match optimistic::storage_next_key_in_best(&diff, &b"a".to_vec(), Some(b"c".to_vec())) {
        optimistic::NextKeyStep::Found(Some(k)) => assert_eq!(k, b"b".to_vec()),
        _ => panic!("expected the inserted key"),
    }
    // the finalized candidate comes first and is not erased
    match optimistic::storage_next_key_in_best(&diff, &b"b".to_vec(), Some(b"ba".to_vec())) {
        optimistic::NextKeyStep::Found(Some(k)) => assert_eq!(k, b"ba".to_vec()),
        _ => panic!("expected the finalized candidate"),
    }
    // the finalized candidate is erased: ask for the one after it
    match optimistic::storage_next_key_in_best(&diff, &b"c".to_vec(), Some(b"d".to_vec())) {
        optimistic::NextKeyStep::NextOf(k) => assert_eq!(k, b"d".to_vec()),
        _ => panic!("expected to advance past the erased key"),
    }
    // nothing on either side
    match optimistic::storage_next_key_in_best(&diff, &b"e".to_vec(), None) {
        optimistic::NextKeyStep::Found(None) => {}
        _ => panic!("expected no next key"),
    }
}

#[test]
fn runtime_replacement_is_detected_from_storage_changes() {
    let plain: Vec<(Vec<u8>, Option<Vec<u8>>)> = vec![(b"x".to_vec(), Some(b"1".to_vec()))];
    assert!(!optimistic::storage_changes_replace_runtime(&plain));
    let code: Vec<(Vec<u8>, Option<Vec<u8>>)> = vec![(b":code".to_vec(), Some(b"wasm".to_vec()))];
    assert!(optimistic::storage_changes_replace_runtime(&code));
    let heap: Vec<(Vec<u8>, Option<Vec<u8>>)> = vec![(b":heappages".to_vec(), None)];
    assert!(optimistic::storage_changes_replace_runtime(&heap));
}
