//! A typed layer over a document database: index declarations, the command
//! documents they encode to, and the synchronization plan that reconciles a
//! declared index set with the indexes a live collection reports.

mod commands;
mod index;
mod laws;
mod operator;
mod repository;
mod sync;
mod value;

pub use commands::NAMESPACE_NOT_FOUND;
pub use commands::command_error_code;
pub use commands::command_error_code_model;
pub use commands::drop_bulk_model;
pub use commands::drop_indexes_command;
pub use commands::drop_one_index_command;
pub use commands::drop_one_model;
pub use commands::lemma_drop_fallback_equivalence;
pub use commands::list_command_model;
pub use commands::list_indexes_command;
pub use commands::names_list_model;
pub use commands::namespace_not_found;
pub use index::Index;
pub use index::IndexKeyModel;
pub use index::IndexModel;
pub use index::IndexOption;
pub use index::IndexOptionModel;
pub use index::Indexes;
pub use index::SortOrder;
pub use index::clone_index;
pub use index::clone_option;
pub use index::create_command_model;
pub use index::default_name;
pub use index::index_doc_model;
pub use index::indexes_docs_model;
pub use index::key_doc_model;
pub use index::key_entry_name;
pub use index::key_entry_value;
pub use index::key_fragment;
pub use index::keys_have_text;
pub use index::lemma_index_doc_has_key;
pub use index::lemma_key_doc_unique;
pub use index::lemma_options_fold_has;
pub use index::option_wire_key;
pub use index::option_wire_value;
pub use index::options_doc_model;
pub use index::weights_doc_model;
pub use laws::ex_key;
pub use laws::in_sync_with;
pub use laws::lemma_declared_weights_normalized;
pub use laws::lemma_default_name_used;
pub use laws::lemma_explicit_name_wins;
pub use laws::lemma_options_fold_last;
pub use laws::lemma_options_fold_other;
pub use laws::lemma_sync_idempotent;
pub use laws::lemma_text_index_classification;
pub use laws::lemma_text_weight_normalization;
pub use laws::match_key_of;
pub use laws::pairs_of;
pub use operator::Operator;
pub use repository::BulkUpdate;
pub use repository::BulkUpdateModel;
pub use repository::BulkUpdateOptions;
pub use repository::BulkUpdateOptionsModel;
pub use repository::bulk_update_command;
pub use repository::bulk_update_command_model;
pub use repository::bulk_updates_model;
pub use repository::docs_as_values;
pub use repository::one_update_model;
pub use sync::Listing;
pub use sync::PlanModel;
pub use sync::PlanState;
pub use sync::SyncError;
pub use sync::SyncPlan;
pub use sync::build_existing;
pub use sync::build_existing_from;
pub use sync::canon_has;
pub use sync::canon_index;
pub use sync::classify_all;
pub use sync::classify_step;
pub use sync::creates_model;
pub use sync::doc_seq_model;
pub use sync::drop_matched;
pub use sync::drops_model;
pub use sync::lemma_canon_index;
pub use sync::listing_model;
pub use sync::match_doc_model;
pub use sync::parse_listing;
pub use sync::plan_from_listing;
pub use sync::plan_from_listing_model;
pub use sync::plan_model;
pub use sync::plan_sync;
pub use sync::register_existing;
pub use sync::rem_model;
pub use sync::rewrite_text_weights;
pub use sync::strip_volatile;
pub use sync::sweep_remaining;
pub use sync::text_sentinel_key;
pub use value::Doc;
pub use value::DocModel;
pub use value::Value;
pub use value::ValueModel;
pub use value::canon_doc_eq;
pub use value::canon_eq;
pub use value::canonical_doc_eq;
pub use value::canonical_eq;
pub use value::clone_doc;
pub use value::clone_value;
pub use value::dm_eq;
pub use value::doc_are_eq;
pub use value::keys_unique;
pub use value::lemma_first_index;
pub use value::lemma_insert_get;
pub use value::lemma_insert_unique;
pub use value::lemma_value_model_variants;
pub use value::model_first_index;
pub use value::model_get;
pub use value::model_has_key;
pub use value::model_insert;
pub use value::model_remove;
pub use value::value_eq;
pub use value::vm_eq;
