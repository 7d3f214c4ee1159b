//! DNS wire-format codec: a bounds-checked byte cursor, header and flags
//! codecs, domain-name decoding with compression pointers, question and
//! resource-record decoding, and the building of A-record queries.
pub mod collate;
pub mod laws;
pub mod parser;
pub mod protocol;
pub mod query;

pub use collate::Collate;
pub use parser::{DnsParser, MAX_POINTER_JUMPS};
pub use protocol::{Answer, AnswerMeta, DnsError, Flags, Header, Question, RecordType};
pub use query::{
    encode_domain_name, extract_query_id_and_domain, generate_request, parse_answers, parse_query,
    DEFAULT_REQUEST_ID,
};
