mod chain;
mod types;

pub use chain::{Chain, ChainError};
pub use types::{lemma_txid_view_injective, BlockHash, RuneId, SerializedOutPoint, Txid};
mod keys;
pub use keys::{
    lemma_outpoint_bytes_injective, lemma_rune_id_bytes_injective, lemma_rune_id_bytes_roundtrip,
    outpoint_from_bytes, outpoint_to_bytes, parse_outpoint_from_script_pubkey_key, rune_id_from_bytes,
    rune_id_to_bytes, rune_index_key, rune_transaction_key, script_pubkey_outpoint_to_bytes,
    script_pubkey_search_key,
};
mod txid_set;
pub use txid_set::TxidSet;
mod transaction_update;
pub use transaction_update::{
    fully_removed, lemma_block_additions_partitioned, lemma_block_removals_covered,
    lemma_change_set_disjoint, lemma_mempool_removals_partitioned, newly_added, CategorizedTxs,
    TransactionChangeSet, TransactionUpdate, TransactionUpdateView,
};
mod mempool_timing;
pub use mempool_timing::{elapsed, TxTimes};
mod mempool_debouncer;
pub use mempool_debouncer::{is_due, MempoolDebouncer, MempoolDebouncerView, MempoolRemovalGrace};
mod rune_entry;
pub use rune_entry::{
    burned_entry, lemma_mint_stays_within_terms, minted_entry, new_rune_entry, rune_response, unburned_entry, unminted_entry, as_signed, checked_add_signed, mint_amount, mint_cap, or_zero_u128, sat_add_u64,
    saturating_add_signed, spec_end, spec_max_supply, spec_mintable, spec_start, spec_supply,
    BalanceError, Etching, InscriptionId, MintError, MintResponse, RuneEntry, RuneResponse,
    SpacedRune, Terms,
};
mod block_fetcher;
pub use block_fetcher::{
    lemma_receive_all_delivers_in_order, receive_all, receive_spec, received_or_waiting,
    retry_delay_seconds,
    spec_retry_delay, waiting_run, wrap_dec, wrap_inc, BlockFetcherStats, ReorderBuffer, Semaphore,
};
mod balances;
pub use balances::{bal, balances_map, credit, debit, distinct_rune_ids, Balances};
mod allocation;
pub use allocation::{
    allocate, apply_edict, apply_edicts, burn_op_returns, default_output, destinations,
    edict_rune, empty_outputs, lemma_edict_to_one_output_moves_the_smaller_amount,
    lemma_edict_to_every_output_splits_or_spreads, even_share, spread_left, spread_share,
    lemma_cenotaph_burns_everything, lemma_unallocated_holds_inputs_mint_and_premine,
    lemma_default_output_is_pointer_or_first_kept, lemma_leftover_goes_to_default_output, initial_unallocated, merge, positive, share, artifact_premine, ArtifactView,
    lemma_allocation_conserves_runes, spec_allocation, split_k, spread_k, sum_all, sum_kept, views,
    AllocState, Artifact, Edict, allocate_runes, artifact_edicts, artifact_pointer, bounded, select, state_of, RuneAllocation,
};
mod mempool_order;
pub use mempool_order::{
    count_eq, count_open, depends, distinct_keys, has_cycle, is_topological_order,
    lemma_topological_order_has_no_cycle, open_set, sort_transaction_order, tx_keys, MempoolError,
};
mod runes;
pub use runes::{
    lemma_named_etching_requires_commitment, lemma_unnamed_etching_gets_reserved_rune, minimum_rune, reserved_threshold, spec_etched, spec_reserved, EtchingRequest,
    NamedEtchingChecks, TransactionParser,
};
mod state_change;
pub use state_change::{
    id_lt, lists_balances, output_rune_ids, some_output_has_runes, sorted_by_id, sorted_runes,
    touched_rune_ids, RuneAmount, SpentStatus, TransactionStateChange,
    TxOutEntry,
};
mod settings;
pub use settings::{
    get_purge_info, spec_rpc_auth, BgWriterSettings, BlockCacheSettings, MempoolCacheSettings,
    Options, PurgeInfo, ReadCacheSettings, RpcAuth, RpcAuthView, Settings, SubscriptionConfig,
    TransactionUpdaterSettings, UpdaterCacheSettings,
};
mod pool;
pub use pool::{
    from_provider, idle_after_use, idle_after_uses, lemma_pool_uses_stay_within_capacity, provided,
    PoolUse, RpcClientPool, RpcClientPoolError, RpcClientProvider,
};
mod parser;
pub use parser::{
    artifact_fits, artifact_of_raw, artifact_view, byte_strings, computed_txid, decipher_transaction, decode_transaction,
    decoded, deciphered, edict_of_raw, etching_of_raw, terms_of_raw, RawArtifact, RawArtifactView,
    RawEdict, RawEtching, RawTerms, TransactionData, TransactionView, TxInput, TxInputView, TxOutput,
    TxOutputView,
};
mod parse;
pub use parse::{
    etching_request_of, artifact_mint, etched_id, etching_request, flat_runes, is_coinbase, op_return_flags,
    parsed_runes, spec_is_coinbase, spec_minted, spent_runes, starting_balances, sum_amounts,
    sum_spent_runes,
};
mod commit;
pub use commit::{
    candidates_upto, commitment_needed, has_annex, committing_candidate, failing_candidate,
    lemma_commit_check_finds_the_first_deciding_candidate, EtchingLookup, commit_check, commit_check_defined, commitment_bytes, spec_is_p2tr, CommitCheck, commitment_candidates, commitment_candidates_spec,
    input_matches, instructions_view, matching_pushes, script_instructions, witness_tapscript,
};
mod sync;
pub use sync::{
    choose_mempool_transactions, detect_reorg_next, detect_reorg_start, is_chain_synced,
    needs_tip_check, reorg_rollback, select_new, should_clear_notifications, step_at, tip_matches, tx_notices, ReorgError, ReorgStep, TxNotices,
};
mod sync_loop;
pub use sync_loop::{
    finishing, ignored, lemma_sync_done_is_final, lemma_sync_indexes_consecutive_heights,
    lemma_sync_reorg_checks, lemma_sync_run_keeps_flush_bound, lemma_sync_step_keeps_flush_bound,
    lemma_sync_tip_marks, spec_sync_step, sync_event_fits, sync_run, sync_step, SyncAction, SyncEvent,
    SyncPhase, SyncState,
};
mod inscription_id;
pub use inscription_id::{
    decimal, digit_char, digits_value, hex_digit, hex_value, is_ascii_char, is_digit, is_hex,
    lemma_inscription_id_round_trip, spec_display_inscription_id, spec_parse_inscription_id,
    txid_hex, txid_of_hex, u32_of_decimal, ParseError, ParseOutcome,
};
mod codec;
pub use codec::{
    enc_bool, enc_opt, le, le_value, lemma_le_value, lemma_pow256_values, lemma_rd, lemma_rd_bool,
    lemma_rd_opt, pow256, rd, rd_bool, rd_opt,
};
mod rune_store;
pub use rune_store::{
    enc_inscription, enc_string, enc_symbol, enc_terms, nat_of_u128, nat_of_u64, opt_u128, opt_u64,
    rd_head, rd_inscription, rd_mid, rd_symbol, rd_tail, rd_term_fields, rd_terms, rd_txid_text,
    head_bytes, lemma_rune_entry_round_trip, mid_bytes, rune_entry_bytes, spec_load_rune_entry,
    load_rune_entry, store_rune_entry, tail_bytes, txid_from_bytes,
};
mod address;
pub use address::{
    add_to_group, created_items, distinct_scripts, group_all, group_of, groups_map, index_of,
    item_of, item_output, lemma_group_all_lists_outputs_by_script, new_items, outputs_of,
    lemma_spent_outputs_are_not_listed_as_created, spent_elsewhere, spent_items, AddressUpdater,
    ScriptGroupView,
    ScriptGroups, SpenderReference,
};
mod table;
pub use table::{keys_distinct, table_map, Table, TableKey};
mod index_state;
pub use index_state::{
    after_adds, lemma_adds_append, lemma_page_after_adds, append_rune_transactions, empty_batch, lookup_hash, empty_index, holds_nothing, block_id_to_transaction_status, confirmed_status, rune_txs, unconfirmed_status, TransactionStatus, block_txids, entry_views, held_entries, spent_outpoints_of, last_page, spent_by, location_of, txid_keys, updated, BatchDelete, BlockId, Event, IndexState, IndexView, Location, PaginationResponse,
};
mod tx_updater;
pub use tx_updater::{
    counts_kept, lemma_save_separates_pending_from_confirmed, same_counts, add_rune_transactions, can_etch, created_records, etching_fields, height_of, is_op_return_script,
    record, record_all, save_burn, save_burns, save_etch, save_mint, save_outputs, save_records,
    saved, spend, spend_all, spender_records, transfer_events, StoreError, TransactionUpdater,
    TransactionUpdaterError,
};
mod rollback;
pub use rollback::{
    add_utxos, addresses_recorded, first_missing, output_outpoints, remove_keys, remove_utxos,
    unindex_addresses, utxos_of, without, burned_ids, lemma_revert_undoes_save, negatable_burns, remove_outputs, renumber, reverted, reverted_before_burns, unburn, unburn_all, unetch, unmint,
    unspend, unspend_all, Rollback, RollbackError,
};
mod read_cache;
pub use read_cache::{
    at_least_one, block_hash_capacity, rune_capacity, rune_id_capacity, transaction_capacity, tx_out_capacity,
    cached_block_hashes, cached_rune_ids, cached_runes, cached_transactions, cached_tx_outs,
    BlockHashCache, ReadCache, RuneCache, RuneIdCache, TransactionCache,
    TxOutCache,
};
mod flush;
pub use flush::{plan_flush, FlushPlan, WriteMode};
mod store;
pub use store::{
    in_mempool, read_runes, read_state_change, read_tx_out, rune_page_numbers, side, RuneQuery, Store,
};
mod updater_cache;
pub use updater_cache::{
    batch_views, change_view_opt, inputs_count, precached, confirming_blocks_of, layered, lemma_handing_over_keeps_reads,
    lemma_reads_see_the_update, lookup, pending_lookup, rune_ids_of, runes_of, state_changes_of,
    stored_transaction, transactions_of, tx_outs_of, tx_view_opt, UpdaterCache,
};
mod indexing;
mod lookups;
pub use lookups::{
    bytes_opt, entry_view_opt, found_transaction, lists_entries, merged_page, output_outpoint,
    page_defined, page_of, read_tx_out_seen, sat_sub, script_list, script_of, script_outpoints, stored_on_chain,
    unspent_in_mempool, with_mempool_spent, TransactionRecord,
};
pub use indexing::{
    ask_node_of, indexed, raw_indexed, without_txid, commitments_readable, etching_checks_of, flat_view_runes, mint_entry_of, parse_outcome, IndexTxError,
};
