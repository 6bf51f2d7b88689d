//! Runtime configuration: where the corpus lives, the tombstone text
//! for expunged quotes, the privileged users, and the reaction triggers,
//! together with the decision which reactions a message earns.

use vstd::prelude::*;
use crate::text::{contains_seq, contains_str, lower_seq, lower_string};

verus! {

/// A reaction emoji: a plain unicode character, or the textual form of
/// a custom emoji.
pub enum EmojiTypes {
    Emoji(char),
    CustomEmoji(String),
}

impl EmojiTypes {
    /// A copy holding the same value.
    pub fn duplicate(&self) -> (r: EmojiTypes)
        ensures
            r == *self,
    {
        match self {
            EmojiTypes::Emoji(c) => EmojiTypes::Emoji(*c),
            EmojiTypes::CustomEmoji(s) => EmojiTypes::CustomEmoji(s.clone()),
        }
    }
}

/// The application's configuration.
pub struct Configuration {
    pub hord_path: String,
    pub expunged_message: String,
    pub admin_users: Vec<String>,
    pub reactions: Vec<(String, EmojiTypes)>,
}

impl Configuration {
    /// Reaction triggers are pairwise distinct, as a configuration file
    /// keyed by trigger guarantees: no trigger can earn its reaction
    /// twice.
    pub open spec fn wf(&self) -> bool {
        forall|i: int, j: int|
            0 <= i < j < self.reactions@.len() ==> (#[trigger] self.reactions@[i]).0@ != (
            #[trigger] self.reactions@[j]).0@
    }
}

/// The configuration written when none exists yet.
pub fn default_configuration() -> (r: Configuration)
    ensures
        r.hord_path@ == "/var/lib/fyrnwita/hord.sl3"@,
        r.expunged_message@ == "Quote has been removed."@,
        r.admin_users@.len() == 0,
        r.reactions@.len() == 0,
        r.wf(),
{
    Configuration {
        hord_path: "/var/lib/fyrnwita/hord.sl3".to_owned(),
        expunged_message: "Quote has been removed.".to_owned(),
        admin_users: Vec::new(),
        reactions: Vec::new(),
    }
}

/// The reactions whose trigger occurs in the lowercased content, in
/// configuration order.
pub open spec fn reactions_for(
    rs: Seq<(String, EmojiTypes)>,
    content: Seq<char>,
) -> Seq<EmojiTypes>
    decreases rs.len(),
{
    if rs.len() == 0 {
        Seq::empty()
    } else {
        (if contains_seq(lower_seq(content), rs[0].0@) {
            seq![rs[0].1]
        } else {
            Seq::<EmojiTypes>::empty()
        }) + reactions_for(rs.skip(1), content)
    }
}

/// Which reactions a message earns: one per configured trigger that
/// occurs in the message, matched case-insensitively. With triggers
/// pairwise distinct, no reaction is earned twice by one trigger.
pub fn matching_reactions(config: &Configuration, content: &str) -> (r: Vec<EmojiTypes>)
    requires
        config.wf(),
    ensures
        r@ == reactions_for(config.reactions@, content@),
{
    let ghost rs = config.reactions@;
    let low = lower_string(content);
    let n = config.reactions.len();
    let mut out: Vec<EmojiTypes> = Vec::new();
    let mut i: usize = 0;
    proof {
        assert(rs.skip(0) =~= rs);
        assert(out@ + reactions_for(rs, content@) =~= reactions_for(rs, content@));
    }
    while i < n
        invariant
            i <= n,
            n == rs.len(),
            rs == config.reactions@,
            low@ == lower_seq(content@),
            reactions_for(rs, content@) == out@ + reactions_for(rs.skip(i as int), content@),
        decreases n - i,
    {
        let ghost pre = out@;
        proof {
            assert(rs.skip(i as int).skip(1) =~= rs.skip(i + 1));
            assert(rs.skip(i as int)[0] == rs[i as int]);
        }
        let pair = &config.reactions[i];
        if contains_str(low.as_str(), pair.0.as_str()) {
            out.push(pair.1.duplicate());
            proof {
                assert(out@ =~= pre + seq![rs[i as int].1]);
                assert(reactions_for(rs, content@) =~= out@ + reactions_for(
                    rs.skip(i + 1),
                    content@,
                ));
            }
        } else {
            proof {
                assert(reactions_for(rs, content@) =~= out@ + reactions_for(
                    rs.skip(i + 1),
                    content@,
                ));
            }
        }
        i += 1;
    }
    proof {
        assert(rs.skip(n as int) =~= Seq::<(String, EmojiTypes)>::empty());
        assert(reactions_for(rs, content@) =~= out@);
    }
    out
}

} // verus!
