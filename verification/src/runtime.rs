//! Starting the daemon.

use vstd::prelude::*;

pub mod laws;

use crate::bus::{DaemonMessage, Ingest};
use crate::configuration::{Configuration, TagDeclaration};
use crate::database::{DatabaseError, DatabaseView, TagView};
use crate::ids::TagId;
use crate::state::{Change, ChangeOrigin};
use crate::text::{blank, decimal, decimal_text, is_blank, joined};

verus! {

/// The places that whoever starts the daemon must name.
#[derive(Debug, Clone, PartialEq, Eq)]
pub struct RunPaths {
    pub data_dir: String,
    pub identity_file: String,
}

/// Why the daemon did not start.
#[derive(Debug, Clone, PartialEq, Eq)]
pub enum RunError {
    /// The identity key could not be loaded.
    Identity { path: String, source: String },
    /// The main database could not be opened.
    Database(DatabaseError),
    /// The listener for peers could not be bound.
    Bind { address: String, source: String },
}

impl RunError {
    /// The error in words.
    pub open spec fn text(self) -> Seq<char> {
        match self {
            RunError::Identity { path, source } => "failed to load identity key at "@ + path@
                + ": "@ + source@,
            RunError::Database(error) => "failed to open main database: "@ + error.debug_text(),
            RunError::Bind { address, source } => "failed to bind peer listener to "@ + address@
                + ": "@ + source@,
        }
    }

    /// The error in words.
    pub fn to_string(&self) -> (r: String)
        ensures
            r@ == self.text(),
    {
        match self {
            RunError::Identity { path, source } => {
                let mut out = joined("failed to load identity key at ", path.as_str());
                out.append(": ");
                out.append(source.as_str());
                out
            },
            RunError::Database(error) => {
                let name = error.to_debug_string();
                joined("failed to open main database: ", name.as_str())
            },
            RunError::Bind { address, source } => {
                let mut out = joined("failed to bind peer listener to ", address.as_str());
                out.append(": ");
                out.append(source.as_str());
                out
            },
        }
    }
}

/// The address that the listener for peers is bound to.
pub fn bind_address(listen_port: u16) -> (r: String)
    ensures
        r@ == "0.0.0.0:"@ + decimal_text(listen_port as nat),
{
    let port = decimal(listen_port as u64);
    joined("0.0.0.0:", port.as_str())
}

/// The stamp of a declared tag: the lowest there is, so that a declaration yields to
/// every definition that was ever made.
pub const DECLARED_TAG_MODIFIED_AT: i64 = i64::MIN;

/// The colour of a tag that was given none.
pub const DEFAULT_TAG_COLOR: &'static str = "#F44336";

/// The colour that a tag gets: the one given, unless it is blank.
pub open spec fn color_or_default(color: Seq<char>) -> Seq<char> {
    if blank(color) {
        DEFAULT_TAG_COLOR@
    } else {
        color
    }
}

/// The colour that a tag gets.
pub fn normalised_color(color: String) -> (r: String)
    ensures
        r@ == color_or_default(color@),
{
    if is_blank(color.as_str()) {
        DEFAULT_TAG_COLOR.to_owned()
    } else {
        color
    }
}

/// Whether a message adds a declared tag.
pub open spec fn declares(message: DaemonMessage, tag: TagDeclaration) -> bool {
    &&& message matches DaemonMessage::Change(
        Ingest::Meta(Change::TagAdded { tag_id, tag_name, color, metadata, modified_at }),
        ChangeOrigin::Local { directory_path },
    )
    &&& tag_id == tag.id
    &&& tag_name@ == tag.name@
    &&& color@ == color_or_default(tag.color@)
    &&& metadata is None
    &&& modified_at == DECLARED_TAG_MODIFIED_AT
    &&& directory_path@ == Seq::<char>::empty()
}

/// The declarations among the first `n` that have a name.
pub open spec fn named_declarations(tags: Seq<TagDeclaration>, n: int) -> Seq<TagDeclaration>
    decreases n,
{
    if n <= 0 {
        Seq::empty()
    } else {
        let before = named_declarations(tags, n - 1);
        if blank(tags[n - 1].name@) {
            before
        } else {
            before.push(tags[n - 1])
        }
    }
}

/// Whether messages make the declared tags exist.
pub open spec fn declared_first(tags: Seq<TagDeclaration>, messages: Seq<DaemonMessage>) -> bool {
    let named = named_declarations(tags, tags.len() as int);
    &&& messages.len() == named.len()
    &&& forall|i: int| 0 <= i < named.len() ==> declares(#[trigger] messages[i], named[i])
}

/// The messages that make the declared tags exist, in the order of the configuration.
/// They go onto the bus before anything else.
pub fn enqueue_declared_tags(configuration: &Configuration) -> (r: Vec<DaemonMessage>)
    ensures
        ({
            let named = named_declarations(
                configuration.tags@,
                configuration.tags@.len() as int,
            );
            &&& r@.len() == named.len()
            &&& forall|i: int| 0 <= i < named.len() ==> declares(#[trigger] r@[i], named[i])
        }),
        declared_first(configuration.tags@, r@),
{
    let mut out: Vec<DaemonMessage> = Vec::new();
    let ghost tags = configuration.tags@;
    let mut i: usize = 0;
    while i < configuration.tags.len()
        invariant
            i <= configuration.tags.len(),
            tags == configuration.tags@,
            out@.len() == named_declarations(tags, i as int).len(),
            forall|k: int|
                0 <= k < out@.len() ==> declares(
                    #[trigger] out@[k],
                    named_declarations(tags, i as int)[k],
                ),
        decreases configuration.tags.len() - i,
    {
        let tag = &configuration.tags[i];
        if !is_blank(tag.name.as_str()) {
            let change = Change::TagAdded {
                tag_id: tag.id,
                tag_name: tag.name.clone(),
                color: normalised_color(tag.color.clone()),
                metadata: None,
                modified_at: DECLARED_TAG_MODIFIED_AT,
            };
            let directory_path = String::new();
            assert(directory_path@ =~= Seq::<char>::empty());
            let message = DaemonMessage::change(change, ChangeOrigin::Local { directory_path });
            assert(declares(message, *tag));
            out.push(message);
        }
        i = i + 1;
    }
    out
}

/// A declaration is a floor: it leaves a tag that is known as it is, and any later
/// definition replaces it.
pub proof fn law_declaration_is_a_floor(
    db: DatabaseView,
    tag_id: TagId,
    declared: TagView,
    definition: TagView,
)
    requires
        declared.modified_at == DECLARED_TAG_MODIFIED_AT,
        definition.modified_at > DECLARED_TAG_MODIFIED_AT,
    ensures
        db.tags.contains_key(tag_id) ==> db.with_tag(tag_id, declared) == db,
        db.with_tag(tag_id, declared).tags.contains_key(tag_id),
        db.with_tag(tag_id, definition).with_tag(tag_id, declared) == db.with_tag(
            tag_id,
            definition,
        ),
        !db.tags.contains_key(tag_id) ==> db.with_tag(tag_id, declared).with_tag(
            tag_id,
            definition,
        ) == db.with_tag(tag_id, definition),
{
    if !db.tags.contains_key(tag_id) {
        assert(db.with_tag(tag_id, declared).with_tag(tag_id, definition).tags =~= db.with_tag(
            tag_id,
            definition,
        ).tags);
    }
}

} // verus!
