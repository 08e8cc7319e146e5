//! Converts a decoded blockchain transaction's scripts into a nested,
//! index-addressable tape/cell structure: conditional branches are
//! flattened into a linear token stream, the stream is grouped into
//! tapes by configurable delimiter rules, and an envelope detector
//! recognises a tagged payload pattern in output scripts.

pub mod bpu;
pub mod bsv_api;
pub mod components;
pub mod laws;
pub mod protocols;

pub use components::OP_0;
pub use components::OP_1;
pub use components::OP_IF;
pub use components::OP_NOTIF;
pub use components::OP_ELSE;
pub use components::OP_ENDIF;
pub use components::OP_RETURN;
pub use components::ScriptToken;
pub use components::ScriptTokenV;
pub use components::token_view;
pub use components::tokens_v;
pub use components::lemma_tokens_v;
pub use components::clone_token;
pub use components::clone_tokens;
pub use components::BpuError;
pub use components::Include;
pub use components::Token;
pub use components::TokenV;
pub use components::SplitConfig;
pub use components::SplitConfigV;
pub use components::rules_v;
pub use components::lemma_rules_v;
pub use components::ParseConfig;
pub use components::Cell;
pub use components::CellV;
pub use components::opt_str_v;
pub use components::cells_v;
pub use components::lemma_cells_v;
pub use components::Tape;
pub use components::TapeV;
pub use components::tapes_v;
pub use components::lemma_tapes_v;
pub use components::SendRecv;
pub use components::SendRecvV;
pub use components::IO;
pub use components::IOV;
pub use components::ios_v;
pub use components::lemma_ios_v;
pub use components::IndexCounter;
pub use components::Tx;
pub use components::TxV;
pub use components::BPU;
pub use components::BPUV;
pub use components::TxInputData;
pub use components::TxInputDataV;
pub use components::TxOutputData;
pub use components::TxOutputDataV;
pub use components::TxData;
pub use components::TxDataV;
pub use components::tx_inputs_v;
pub use components::lemma_tx_inputs_v;
pub use components::tx_outputs_v;
pub use components::lemma_tx_outputs_v;
pub use components::OrdData;
pub use components::OrdDataV;
pub use components::ords_v;
pub use components::lemma_ords_v;
pub use components::BMapManager;
pub use components::Block;
pub use components::BobTx;

pub use bpu::spec_flatten;
pub use bpu::spec_flatten_one;
pub use bpu::is_flat_token;
pub use bpu::all_flat;
pub use bpu::flatten_script_bits;
pub use bpu::lemma_flatten_identity;
pub use bpu::lemma_spec_flatten_concat;
pub use bpu::lemma_spec_flatten_flat;
pub use bpu::lemma_spec_flatten_one_flat;
pub use bpu::lemma_spec_flatten_singleton;
pub use bpu::lemma_tokens_v_push;
pub use bpu::lemma_tokens_v_concat;
pub use bpu::cell_of_token;
pub use bpu::rule_matches;
pub use bpu::splitter_of;
pub use bpu::SplitStateV;
pub use bpu::init_split_state;
pub use bpu::split_step;
pub use bpu::split_run;
pub use bpu::split_finish;
pub use bpu::split_tapes;
pub use bpu::split_script_tapes;
pub use bpu::decode_raw_tx;
pub use bpu::CellTransform;
pub use bpu::NoTransform;
pub use bpu::transformed_cell;
pub use bpu::split_script_tapes_with;
pub use bpu::state_of;
pub use bpu::no_address;
pub use bpu::spec_input_address;
pub use bpu::spec_output_address;
pub use bpu::spec_input_io;
pub use bpu::spec_output_io;
pub use bpu::spec_collect;
pub use bpu::transform_tapes_v;
pub use bpu::spec_input_io_with;
pub use bpu::spec_output_io_with;
pub use bpu::spec_collect_with;
pub use bpu::lemma_no_transform_tapes;
pub use bpu::lemma_no_transform_collect;
pub use bpu::lemma_split_run_snoc;
pub use bpu::lemma_cells_v_push;
pub use bpu::lemma_tapes_v_push;
pub use bpu::lemma_ios_v_push;
pub use bpu::lemma_splitter_unfold;

pub use laws::tapes_cells;
pub use laws::cell_matches;
pub use laws::state_cells;
pub use laws::lemma_split_preserves_tokens;
pub use laws::lemma_tapes_cells_push;
pub use laws::lemma_step_cells;
pub use laws::lemma_run_cells;
pub use laws::lemma_finish_cells;
pub use laws::lemma_run_tapes_prefix;
pub use laws::lemma_run_concat;
pub use laws::lemma_group_first_survives;
pub use laws::lemma_left_policy;
pub use laws::lemma_center_policy;
pub use laws::lemma_right_policy;
pub use laws::no_merged_at;
pub use laws::no_merged_tapes;
pub use laws::lemma_address_sentinel;
pub use laws::wf_token;
pub use laws::wf_tokens;
pub use laws::UnflatFrame;
pub use laws::unflatten_loop;
pub use laws::unflatten;
pub use laws::lemma_flatten_round_trip;

pub use bsv_api::decode_of;
pub use bsv_api::opcode_name_of;
pub use bsv_api::utf8_lossy_of;
pub use bsv_api::address_of_pubkey;
pub use bsv_api::address_of_pubkey_hash;

pub use protocols::pipe_opreturn_rules;
pub use protocols::bitcom::Bitcom;
pub use protocols::bob::BOB;
