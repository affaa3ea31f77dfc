//! An embeddable HTTP server core: route and static-asset compilation,
//! path matching with variable capture, content-type driven request
//! decoding, response encoding, and a cooperative start/stop lifecycle.
//!
//! The host application supplies handler logic as an opaque callable and
//! performs the actual socket and file I/O; everything that decides or
//! computes lives here, with contracts.

mod decoder;
mod encoder;
mod json;
mod lifecycle;
mod matcher;
mod multipart;
mod render;
mod routes;
mod segment;
mod statics;
mod text;
mod urlparse;
mod value;

pub use decoder::body_form_ok;
pub use decoder::build_request_record;
pub use decoder::decode_fails;
pub use decoder::DecodeError;
pub use decoder::find_header;
pub use decoder::header_value;
pub use decoder::is_media;
pub use decoder::is_media_exec;
pub use decoder::media_type;
pub use decoder::pairs_lookup;
pub use decoder::pairs_to_record;
pub use decoder::part_value_matches;
pub use decoder::parts_lookup;
pub use decoder::RawRequest;
pub use decoder::RawRequestView;
pub use decoder::record_matches_pairs;
pub use decoder::record_matches_parts;
pub use decoder::request_record_ok;
pub use encoder::bad_return_view;
pub use encoder::encode_record_spec;
pub use encoder::encode_response;
pub use encoder::encode_spec;
pub use encoder::EncodeError;
pub use encoder::error_json_body;
pub use encoder::first_ct_header;
pub use encoder::header_views;
pub use encoder::json_header_view;
pub use encoder::lemma_error_answers_json;
pub use encoder::lemma_missing_field_is_error;
pub use encoder::negotiates_json;
pub use encoder::not_found_response;
pub use encoder::opt_view;
pub use encoder::resolved_ct;
pub use encoder::server_header_view;
pub use encoder::status_of;
pub use encoder::WireResponse;
pub use encoder::WireView;
pub use json::json_parse_spec;
pub use json::JsonV;
pub use json::jview;
pub use json::jview_entries;
pub use json::jview_items;
pub use json::parse_json_text;
pub use json::parse_value_spec;
pub use lifecycle::bind_address;
pub use lifecycle::compile_settings;
pub use lifecycle::lemma_second_stop_errors;
pub use lifecycle::LifecycleState;
pub use lifecycle::POLL_TIMEOUT_MILLIS;
pub use lifecycle::route_request;
pub use lifecycle::RouteOutcome;
pub use lifecycle::settings_spec;
pub use lifecycle::stop_spec;
pub use lifecycle::stop_transition;
pub use lifecycle::StopError;
pub use matcher::capture_text;
pub use matcher::lemma_match_needs_equal_count;
pub use matcher::lemma_root_matches_only_root;
pub use matcher::lemma_variable_captures;
pub use matcher::literal_text;
pub use matcher::match_segments;
pub use matcher::opt_text_matches;
pub use matcher::segment_matches;
pub use matcher::segments_match;
pub use multipart::boundary_of;
pub use multipart::extract_boundary;
pub use multipart::multipart_spec;
pub use multipart::parse_multipart;
pub use multipart::Part;
pub use multipart::part_of;
pub use multipart::part_views;
pub use multipart::PartView;
pub use render::json_entries;
pub use render::json_escape;
pub use render::json_escape_char;
pub use render::json_items;
pub use render::json_of;
pub use render::plain_entries;
pub use render::plain_items;
pub use render::plain_of;
pub use render::render_json;
pub use render::render_plain;
pub use routes::compile_middleware;
pub use routes::compile_middleware_spec;
pub use routes::compile_middlewares;
pub use routes::compile_route;
pub use routes::compile_route_spec;
pub use routes::compile_routes;
pub use routes::CompileError;
pub use routes::find_route;
pub use routes::lemma_method_selects;
pub use routes::Method;
pub use routes::method_spec;
pub use routes::Middleware;
pub use routes::MiddlewareView;
pub use routes::parse_method;
pub use routes::parse_route_path;
pub use routes::piece_seg;
pub use routes::Route;
pub use routes::route_matches;
pub use routes::route_segments_spec;
pub use routes::route_views;
pub use routes::RouteView;
pub use segment::first_sep_at;
pub use segment::lemma_first_sep_at_bounds;
pub use segment::lemma_tokenize_well_formed;
pub use segment::PathSegment;
pub use segment::seg_views;
pub use segment::SegView;
pub use segment::split_from;
pub use segment::split_nonempty;
pub use segment::str_views;
pub use segment::tokenize_path;
pub use segment::tokenize_spec;
pub use segment::well_formed_tokens;
pub use statics::extract_static_strings;
pub use statics::make_static_serve;
pub use statics::mime_of;
pub use statics::normalized_root;
pub use statics::resolve_static;
pub use statics::resolve_static_spec;
pub use statics::starts_with;
pub use statics::static_file_headers;
pub use statics::static_strings_spec;
pub use statics::static_views;
pub use statics::StaticServe;
pub use statics::StaticView;
pub use statics::str_starts_with;
pub use text::ascii_eq_fold;
pub use text::dec_str_int;
pub use text::dec_str_nat;
pub use text::digit_char;
pub use text::eq_ignore_case;
pub use text::i128_to_string;
pub use text::lower_code;
pub use urlparse::extract_request_path;
pub use urlparse::extract_request_query;
pub use urlparse::find_char;
pub use urlparse::hex_val;
pub use urlparse::is_hex_digit;
pub use urlparse::pair_views;
pub use urlparse::parse_query_pairs;
pub use urlparse::pct_bytes;
pub use urlparse::pp_decode;
pub use urlparse::pp_decode_str;
pub use urlparse::query_pairs_of;
pub use urlparse::request_path_of;
pub use urlparse::request_query_of;
pub use value::record_get;
pub use value::record_insert;
pub use value::record_keys_unique;
pub use value::record_lookup;
pub use value::Value;
