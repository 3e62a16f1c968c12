//! Gateway of any of the supported protocols.

use vstd::prelude::*;
use crate::gateways::binance_ws_adapter::BinanceWsAdapter;
use crate::gateways::fix_protocol_engine::FixProtocolEngine;
use crate::gateways::gateway_manager::{Gateway, GatewayError, GatewayState, MarketEvent};
use crate::transport::ring_buffer::RingBuffer;

verus! {

/// Gateway of one of the protocols, so that one manager holds them all.
#[derive(Debug)]
pub enum VenueGateway {
    /// Binance market data stream.
    Binance(BinanceWsAdapter),
    /// FIX session.
    Fix(FixProtocolEngine),
}

impl Gateway for VenueGateway {
    open spec fn wf(&self) -> bool {
        match self {
            VenueGateway::Binance(g) => g.wf(),
            VenueGateway::Fix(g) => g.wf(),
        }
    }

    open spec fn spec_venue_id(&self) -> u8 {
        match self {
            VenueGateway::Binance(g) => g.spec_venue_id(),
            VenueGateway::Fix(g) => g.spec_venue_id(),
        }
    }

    open spec fn spec_venue_name(&self) -> Seq<char> {
        match self {
            VenueGateway::Binance(g) => g.spec_venue_name(),
            VenueGateway::Fix(g) => g.spec_venue_name(),
        }
    }

    open spec fn spec_state(&self) -> GatewayState {
        match self {
            VenueGateway::Binance(g) => g.spec_state(),
            VenueGateway::Fix(g) => g.spec_state(),
        }
    }

    open spec fn spec_latency_score(&self, now: u64) -> u32 {
        match self {
            VenueGateway::Binance(g) => g.spec_latency_score(now),
            VenueGateway::Fix(g) => g.spec_latency_score(now),
        }
    }

    open spec fn init_step(pre: Self, post: Self) -> bool {
        match (pre, post) {
            (VenueGateway::Binance(a), VenueGateway::Binance(b)) => {
                BinanceWsAdapter::init_step(a, b)
            },
            (VenueGateway::Fix(a), VenueGateway::Fix(b)) => FixProtocolEngine::init_step(a, b),
            _ => false,
        }
    }

    open spec fn start_step(pre: Self, now: u64, r: Result<(), GatewayError>, post: Self) -> bool {
        match (pre, post) {
            (VenueGateway::Binance(a), VenueGateway::Binance(b)) => {
                BinanceWsAdapter::start_step(a, now, r, b)
            },
            (VenueGateway::Fix(a), VenueGateway::Fix(b)) => {
                FixProtocolEngine::start_step(a, now, r, b)
            },
            _ => false,
        }
    }

    open spec fn stop_step(pre: Self, post: Self) -> bool {
        match (pre, post) {
            (VenueGateway::Binance(a), VenueGateway::Binance(b)) => {
                BinanceWsAdapter::stop_step(a, b)
            },
            (VenueGateway::Fix(a), VenueGateway::Fix(b)) => FixProtocolEngine::stop_step(a, b),
            _ => false,
        }
    }

    open spec fn process_step(
        pre: Self,
        data: Seq<u8>,
        room: nat,
        now: u64,
        events: Seq<MarketEvent>,
        post: Self,
    ) -> bool {
        match (pre, post) {
            (VenueGateway::Binance(a), VenueGateway::Binance(b)) => {
                BinanceWsAdapter::process_step(a, data, room, now, events, b)
            },
            (VenueGateway::Fix(a), VenueGateway::Fix(b)) => {
                FixProtocolEngine::process_step(a, data, room, now, events, b)
            },
            _ => false,
        }
    }

    fn venue_id(&self) -> (r: u8) {
        match self {
            VenueGateway::Binance(g) => g.venue_id(),
            VenueGateway::Fix(g) => g.venue_id(),
        }
    }

    fn venue_name(&self) -> (r: &'static str) {
        match self {
            VenueGateway::Binance(g) => g.venue_name(),
            VenueGateway::Fix(g) => g.venue_name(),
        }
    }

    fn init(&mut self) {
        match self {
            VenueGateway::Binance(g) => g.init(),
            VenueGateway::Fix(g) => g.init(),
        }
    }

    fn start(&mut self, now: u64) -> (r: Result<(), GatewayError>) {
        match self {
            VenueGateway::Binance(g) => g.start(now),
            VenueGateway::Fix(g) => g.start(now),
        }
    }

    fn stop(&mut self) {
        match self {
            VenueGateway::Binance(g) => g.stop(),
            VenueGateway::Fix(g) => g.stop(),
        }
    }

    fn process_buffer(
        &mut self,
        data: &[u8],
        output: &mut RingBuffer<MarketEvent>,
        now: u64,
    ) -> (r: usize) {
        match self {
            VenueGateway::Binance(g) => g.process_buffer(data, output, now),
            VenueGateway::Fix(g) => g.process_buffer(data, output, now),
        }
    }

    fn state(&self) -> (r: GatewayState) {
        match self {
            VenueGateway::Binance(g) => g.state(),
            VenueGateway::Fix(g) => g.state(),
        }
    }

    fn latency_score(&self, now: u64) -> (r: u32) {
        match self {
            VenueGateway::Binance(g) => g.latency_score(now),
            VenueGateway::Fix(g) => g.latency_score(now),
        }
    }

    fn update_latency_score(&mut self, score: u32)
        ensures
            *final(self) == *old(self),
    {
        match self {
            VenueGateway::Binance(g) => g.update_latency_score(score),
            VenueGateway::Fix(g) => g.update_latency_score(score),
        }
    }
}

/// A venue answers as the gateway behind it does.
pub proof fn lemma_venue_answers_as_gateway(
    binance: BinanceWsAdapter,
    fix: FixProtocolEngine,
    now: u64,
)
    ensures
        VenueGateway::Binance(binance).spec_venue_id() == binance.venue_id,
        VenueGateway::Fix(fix).spec_venue_id() == fix.venue_id,
        VenueGateway::Binance(binance).spec_venue_name() == "Binance"@,
        VenueGateway::Fix(fix).spec_venue_name() == "FIX-4.4"@,
        VenueGateway::Binance(binance).spec_state() == binance.state,
        fix.session_logged_in ==> VenueGateway::Fix(fix).spec_state() == fix.state,
        !fix.session_logged_in ==> VenueGateway::Fix(fix).spec_state()
            == GatewayState::Disconnected,
        VenueGateway::Binance(binance).spec_latency_score(now) == binance.spec_latency_score(now),
        VenueGateway::Fix(fix).spec_latency_score(now) == fix.spec_latency_score(now),
{
}

/// A message handed to a venue goes to the gateway behind it, which stays of its kind.
pub proof fn lemma_venue_passes_on(
    pre: VenueGateway,
    data: Seq<u8>,
    room: nat,
    now: u64,
    events: Seq<MarketEvent>,
    post: VenueGateway,
)
    requires
        VenueGateway::process_step(pre, data, room, now, events, post),
    ensures
        pre is Binance ==> post is Binance && BinanceWsAdapter::process_step(
            pre->Binance_0,
            data,
            room,
            now,
            events,
            post->Binance_0,
        ),
        pre is Fix ==> post is Fix && FixProtocolEngine::process_step(
            pre->Fix_0,
            data,
            room,
            now,
            events,
            post->Fix_0,
        ),
{
}

} // verus!
