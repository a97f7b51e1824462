//! What a start brings about: the declared tags exist, and nothing that was ever defined is
//! overridden.

use vstd::prelude::*;
use super::{declared_first, declares, named_declarations};
use crate::bus::DaemonMessage;
use crate::configuration::{Configuration, RuntimeConfiguration, TagDeclaration};
use crate::control::laws::is_invisible;
use crate::database::DatabaseView;
use crate::ids::TagId;
use crate::pipeline::after_message;
use crate::reconcile::laws::picks;
use crate::state::ChangeOrigin;

verus! {

proof fn lemma_named_picks(tags: Seq<TagDeclaration>, n: int)
    requires
        0 <= n <= tags.len(),
    ensures
        picks(
            tags,
            n,
            |t: TagDeclaration| !is_invisible(t.name@),
            |t: TagDeclaration| t,
            named_declarations(tags, n),
        ),
    decreases n,
{
    if n > 0 {
        lemma_named_picks(tags, n - 1);
        let before = named_declarations(tags, n - 1);
        if !is_invisible(tags[n - 1].name@) {
            assert(before.push(tags[n - 1]).drop_last() =~= before);
        }
    }
}

/// Every declaration with a name is made, once and in order, and no other.
pub proof fn law_named_declarations_are_made(
    tags: Seq<TagDeclaration>,
    messages: Seq<DaemonMessage>,
)
    requires
        declared_first(tags, messages),
    ensures
        exists|made: Seq<TagDeclaration>|
            #![trigger made.len()]
            picks(
                tags,
                tags.len() as int,
                |t: TagDeclaration| !is_invisible(t.name@),
                |t: TagDeclaration| t,
                made,
            ) && made.len() == messages.len() && forall|i: int|
                0 <= i < made.len() ==> declares(#[trigger] messages[i], made[i]),
{
    lemma_named_picks(tags, tags.len() as int);
    let made = named_declarations(tags, tags.len() as int);
    assert(made.len() == messages.len());
}

/// A declaration makes a tag that is not known, under its name and colour, and leaves one that
/// is known as it is. Either way nothing else changes.
pub proof fn law_a_declaration_makes_a_missing_tag(
    configuration: Configuration,
    runtime: RuntimeConfiguration,
    db: DatabaseView,
    tag: TagDeclaration,
    message: DaemonMessage,
    now: i64,
    here: ChangeOrigin,
)
    requires
        declares(message, tag),
        !is_invisible(tag.name@),
    ensures
        ({
            let after = after_message(configuration, runtime, db, message, now, here).0;
            &&& after.files == db.files
            &&& after.entries == db.entries
            &&& after.versions == db.versions
            &&& db.tags.contains_key(tag.id) ==> after.tags == db.tags
            &&& !db.tags.contains_key(tag.id) ==> {
                &&& after.tags.dom() == db.tags.dom().insert(tag.id)
                &&& after.tags[tag.id].name == tag.name@
                &&& after.tags[tag.id].color == (if is_invisible(tag.color@) {
                    "#F44336"@
                } else {
                    tag.color@
                })
                &&& after.tags[tag.id].modified_at == i64::MIN
                &&& forall|t: TagId|
                    db.tags.contains_key(t) ==> #[trigger] after.tags[t] == db.tags[t]
            }
        }),
{
    reveal_strlit("#F44336");
    let after = after_message(configuration, runtime, db, message, now, here).0;
    if !db.tags.contains_key(tag.id) {
        assert(after.tags.dom() =~= db.tags.dom().insert(tag.id));
    }
}

} // verus!
