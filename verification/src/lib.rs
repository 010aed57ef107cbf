//! Analysis of program databases: containers, type names, function listings and
//! the comparison of two builds.

pub mod build_flags;
pub mod build_info;
pub mod build_laws;
pub mod build_report;
pub mod checksum_laws;
pub mod checksums;
pub mod choice_laws;
pub mod declarations;
pub mod divergence;
pub mod divergence_build_laws;
pub mod divergence_diff;
pub mod divergence_diff_laws;
pub mod divergence_extract;
pub mod divergence_laws;
pub mod divergence_model;
pub mod divergence_order;
pub mod divergence_order_laws;
pub mod divergence_report;
pub mod divergence_sources;
pub mod divergence_summary;
pub mod divergence_value_laws;
pub mod dump_pdb;
pub mod dyninit;
pub mod error;
pub mod fetch;
pub mod field_attributes;
pub mod files;
pub mod formatter;
pub mod function_cache;
pub mod function_type;
pub mod gen_headers;
pub mod gen_sources;
pub mod guid;
pub mod header_build;
pub mod header_build_laws;
pub mod header_laws;
pub mod header_model;
pub mod header_needs;
pub mod header_write;
pub mod lcs;
pub mod member_laws;
pub mod msf_laws;
pub mod msf_layout;
pub mod name_laws;
pub mod number;
pub mod number_laws;
pub mod order;
pub mod orphan_classify;
pub mod parts;
pub mod paths;
pub mod pdb_parser;
pub mod pieces;
pub mod primitive;
pub mod report_laws;
pub mod report_stats;
pub mod rich_callees;
pub mod rich_context;
pub mod rich_diff;
pub mod rich_laws;
pub mod rich_objdiff;
pub mod rich_query;
pub mod rich_render;
pub mod rich_render_laws;
pub mod rich_structure_diff;
pub mod rich_structure_laws;
pub mod rich_structure_text_laws;
pub mod search;
pub mod source_build_laws;
pub mod source_dump;
pub mod source_file_laws;
pub mod source_files;
pub mod source_function;
pub mod source_laws;
pub mod stats_laws;
pub mod stats_summary;
pub mod stats_tables;
pub mod table_laws;
pub mod text;
pub mod topology_class_laws;
pub mod topology_classes;
pub mod topology_compare;
pub mod topology_diff;
pub mod topology_diff_laws;
pub mod topology_inspect;
pub mod topology_inspect_laws;
pub mod topology_laws;
pub mod topology_record_laws;
pub mod topology_records;
pub mod topology_report;
pub mod topology_report_laws;
pub mod topology_text;
pub mod type_builder;
pub mod type_name_laws;
pub mod type_table;
pub mod utils_fs;
