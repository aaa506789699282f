//! Wire codec for DNS messages and the resolvers that answer their questions.
pub mod answer;
pub mod codes;
pub mod error;
pub mod header;
pub mod message;
pub mod name;
pub mod question;
pub mod resolver;
pub mod wire;

pub use answer::Answer;
pub use codes::{Opcode, QClass, QType, RCode};
pub use error::{DnsError, UpstreamStep};
pub use header::Header;
pub use message::Message;
pub use name::Name;
pub use question::Question;
pub use resolver::{
    answers_from_reply, forward_query, handle_request, reply_with_answers, DummyResolver, Resolver,
};
