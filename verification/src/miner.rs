//! The decisions of a mining client.

use crate::crypto::PublicKey;
use crate::network::{Message, MessageView};
use crate::node::message_view;
use crate::text::read_number;
use crate::time::Timestamp;
use crate::types::block::{Block, BlockHeader, BlockView};
use vstd::prelude::*;

verus! {

/// The number of headers that the miner tries before it looks whether it is to
/// stop.
pub const ROUND_STEPS: usize = 10_000;

/// Why the miner gives up on its node.
#[derive(Clone, Copy, Debug, PartialEq, Eq, Structural)]
pub enum MinerError {
    /// The reply to a request for a template is none.
    NoTemplate,
    /// The reply to a question for a template's validity is none.
    NoValidity,
}

/// A mining client.
#[derive(Debug)]
pub struct Miner {
    /// The key that rewards are paid to.
    pub public_key: PublicKey,
    /// The block that is being mined, or was last.
    pub current_template: Option<Block>,
    /// Whether a block is being mined.
    pub mining: bool,
}

/// What a miner holds.
#[verifier::ext_equal]
pub struct MinerView {
    pub public_key: PublicKey,
    pub current_template: Option<BlockView>,
    pub mining: bool,
}

/// The view of a block, if there is one.
pub open spec fn template_view(template: Option<Block>) -> Option<BlockView> {
    match template {
        Some(block) => Some(block@),
        None => None,
    }
}

impl View for Miner {
    type V = MinerView;

    open spec fn view(&self) -> MinerView {
        MinerView {
            public_key: self.public_key,
            current_template: template_view(self.current_template),
            mining: self.mining,
        }
    }
}

impl MinerView {
    /// What the miner asks its node at every tick: for a template when it is idle,
    /// and whether its template has gone stale when it is mining.
    pub open spec fn request(self) -> Option<MessageView> {
        if !self.mining {
            Some(MessageView::FetchTemplate(self.public_key))
        } else {
            match self.current_template {
                Some(template) => Some(MessageView::ValidateTemplate(template)),
                None => None,
            }
        }
    }
}

/// What a round of mining ends with.
#[derive(Clone, Copy, Debug, PartialEq, Eq, Structural)]
pub enum Round {
    /// The miner is to stop.
    Stopped,
    /// The header of the block meets its target.
    Found,
    /// None of the headers that were tried does.
    Searching,
}

impl Miner {
    /// An idle miner without a template.
    pub fn new(public_key: PublicKey) -> (r: Miner)
        ensures
            r@ == (MinerView { public_key, current_template: None, mining: false }),
    {
        Miner { public_key, current_template: None, mining: false }
    }

    /// Decides at every tick whether to fetch a new template (idle) or validate
    /// the current one (already mining) to check if it has gone stale.
    pub fn fetch_and_validate_template(&self) -> (r: Option<Message>)
        ensures
            message_view(r) == self@.request(),
    {
        if !self.mining {
            Some(Message::FetchTemplate(self.public_key))
        } else {
            match &self.current_template {
                Some(template) => Some(Message::ValidateTemplate(template.clone())),
                None => None,
            }
        }
    }

    /// Takes in the reply to a request for a template: stores it as the current
    /// template, and starts mining.
    pub fn fetch_template(&mut self, reply: Message) -> (r: Result<(), MinerError>)
        ensures
            match reply@ {
                MessageView::Template(template) => r is Ok && final(self)@ == (MinerView {
                    current_template: Some(template),
                    mining: true,
                    ..old(self)@
                }),
                _ => r == Err::<(), MinerError>(MinerError::NoTemplate) && final(self)@ == old(
                    self,
                )@,
            },
    {
        match reply {
            Message::Template(template) => {
                self.current_template = Some(template);
                self.mining = true;
                Ok(())
            },
            _ => Err(MinerError::NoTemplate),
        }
    }

    /// Takes in the reply to the question whether the current template is still
    /// valid. If it is not (another block was found), mining stops, so that a
    /// fresh template is fetched at the next tick.
    pub fn validate_template(&mut self, reply: Message) -> (r: Result<(), MinerError>)
        ensures
            match reply@ {
                MessageView::TemplateValidity(valid) => r is Ok && final(self)@ == (MinerView {
                    mining: old(self)@.mining && valid,
                    ..old(self)@
                }),
                _ => r == Err::<(), MinerError>(MinerError::NoValidity) && final(self)@ == old(
                    self,
                )@,
            },
    {
        match reply {
            Message::TemplateValidity(valid) => {
                if !valid {
                    self.mining = false;
                }
                Ok(())
            },
            _ => Err(MinerError::NoValidity),
        }
    }

    /// Hands over a mined block and stops mining, so that the next tick fetches a
    /// new template.
    pub fn submit_block(&mut self, block: Block) -> (r: Message)
        ensures
            r@ == MessageView::SubmitTemplate(block@),
            final(self)@ == (MinerView { mining: false, ..old(self)@ }),
    {
        self.mining = false;
        Message::SubmitTemplate(block)
    }

    /// The block to be mined, if there is one.
    pub fn task(&self) -> (r: Option<Block>)
        ensures
            template_view(r) == if self@.mining {
                self@.current_template
            } else {
                None
            },
    {
        if !self.mining {
            None
        } else {
            match &self.current_template {
                Some(template) => Some(template.clone()),
                None => None,
            }
        }
    }
}

/// Goes on mining a block for one round, unless the miner is to stop.
pub fn mine_round(mining: bool, block: &mut Block) -> (r: Round)
    ensures
        final(block).transactions == old(block).transactions,
        match r {
            Round::Stopped => !mining && final(block).header == old(block).header,
            Round::Found => mining && final(block).header.meets_target() && round_ends(
                old(block).header,
                true,
                final(block).header,
            ),
            Round::Searching => mining && round_ends(
                old(block).header,
                false,
                final(block).header,
            ),
        },
{
    if !mining {
        return Round::Stopped;
    }
    let mut header = block.header;
    let found = header.mine(ROUND_STEPS);
    assert(round_ends(block.header, found, header));
    block.header = header;
    if found {
        Round::Found
    } else {
        Round::Searching
    }
}

/// Whether a round of mining that starts with a header ends with `found` at the
/// header `end`. Past the last nonce it goes on with the time of the clock.
pub open spec fn round_ends(start: BlockHeader, found: bool, end: BlockHeader) -> bool {
    exists|renewed: Timestamp|
        {
            &&& #[trigger] start.mining_ends(ROUND_STEPS as nat, renewed, found, end)
            &&& renewed.is_clock_time()
        }
}

/// Reads the number of steps that the offline miner takes between two reports: a
/// number other than zero.
pub fn parse_steps(text: &str) -> (r: Option<usize>)
    ensures
        r == match crate::text::number(text@, usize::MAX as nat) {
            Some(n) => if n > 0 {
                Some(n as usize)
            } else {
                None
            },
            None => None,
        },
{
    match read_number(text, usize::MAX as u64) {
        Some(n) => if n > 0 {
            Some(n as usize)
        } else {
            None
        },
        None => None,
    }
}

} // verus!
