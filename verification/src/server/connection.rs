//! Clients of a session: who is attached, how large the screen is, and what
//! their messages mean.

use vstd::prelude::*;

use crate::protocol;
use crate::protocol::AttachMode;
use crate::server::state;
use crate::server::state::{ask, Effect, Ui, UiView, Work};

verus! {

/// An attached client and the size of its terminal.
#[derive(Clone, Copy, Debug, PartialEq, Eq, Structural)]
pub struct ClientInfo {
    pub id: u64,
    pub mode: AttachMode,
    pub tw: u16,
    pub th: u16,
}

// ─── Size ──────────────────────────────────────────────────

pub open spec fn least(a: u16, b: u16) -> u16 {
    if a <= b {
        a
    } else {
        b
    }
}

/// The width of the narrowest client, or the largest number where there is
/// none.
pub open spec fn narrowest(clients: Seq<ClientInfo>) -> u16
    decreases clients.len(),
{
    if clients.len() == 0 {
        u16::MAX
    } else {
        least(narrowest(clients.drop_last()), clients.last().tw)
    }
}

/// The height of the lowest client, or the largest number where there is none.
pub open spec fn lowest(clients: Seq<ClientInfo>) -> u16
    decreases clients.len(),
{
    if clients.len() == 0 {
        u16::MAX
    } else {
        least(lowest(clients.drop_last()), clients.last().th)
    }
}

/// The size of the screen: what fits on every client, or 80 by 24 where there
/// is none.
pub open spec fn common_size(clients: Seq<ClientInfo>) -> (u16, u16) {
    if clients.len() == 0 {
        (80, 24)
    } else {
        (narrowest(clients), lowest(clients))
    }
}

/// The size of the screen that fits on every client.
pub fn effective_size(clients: &Vec<ClientInfo>) -> (r: (u16, u16))
    ensures
        r == common_size(clients@),
{
    let mut w: u16 = u16::MAX;
    let mut h: u16 = u16::MAX;
    let mut i: usize = 0;
    while i < clients.len()
        invariant
            i <= clients@.len(),
            w == narrowest(clients@.take(i as int)),
            h == lowest(clients@.take(i as int)),
        decreases clients@.len() - i,
    {
        assert(clients@.take(i + 1).drop_last() =~= clients@.take(i as int));
        if clients[i].tw < w {
            w = clients[i].tw;
        }
        if clients[i].th < h {
            h = clients[i].th;
        }
        i += 1;
    }
    assert(clients@.take(i as int) =~= clients@);
    if clients.len() == 0 {
        (80, 24)
    } else {
        (w, h)
    }
}

/// The screen fits on every client.
pub proof fn size_fits_every_client(clients: Seq<ClientInfo>, i: int)
    requires
        0 <= i < clients.len(),
    ensures
        narrowest(clients) <= clients[i].tw,
        lowest(clients) <= clients[i].th,
        common_size(clients).0 <= clients[i].tw,
        common_size(clients).1 <= clients[i].th,
    decreases clients.len(),
{
    if i < clients.len() - 1 {
        size_fits_every_client(clients.drop_last(), i);
    }
}

/// The state after the screen got a new size: a drag is over and the panes get
/// their new sizes.
pub open spec fn resized(v: UiView) -> (UiView, Seq<Work>) {
    (
        UiView { drag: None, ..v },
        match v.zoomed_pane {
            Some(id) => seq![
                state::plain(Effect::ResizeAll),
                state::plain(Effect::ResizeZoomed(id)),
            ],
            None => seq![state::plain(Effect::ResizeAll)],
        },
    )
}

/// Fits the screen to the clients. Tells whether its size changed.
pub fn fit_size(
    ui: &mut Ui,
    size: &mut (u16, u16),
    clients: &Vec<ClientInfo>,
    effects: &mut Vec<Effect>,
) -> (r: bool)
    ensures
        *final(size) == common_size(clients@),
        r == (*old(size) != common_size(clients@)),
        ({
            let (v, w) = if r {
                resized(old(ui)@)
            } else {
                (old(ui)@, seq![])
            };
            final(ui)@ == v && state::work(final(effects)@) == state::work(old(effects)@) + w
        }),
{
    let ghost before = state::work(effects@);
    assert(before + seq![] =~= before);
    let now = effective_size(clients);
    if now.0 == size.0 && now.1 == size.1 {
        return false;
    }
    *size = now;
    ui.drag = None;
    ask(effects, Effect::ResizeAll);
    match ui.zoomed_pane {
        Some(id) => ask(effects, Effect::ResizeZoomed(id)),
        None => {},
    }
    assert(state::work(effects@) =~= before + resized(old(ui)@).1);
    true
}

/// Fits the screen after clients came, went or changed their size: where its
/// size changed, everything is drawn anew.
pub fn refit(
    ui: &mut Ui,
    size: &mut (u16, u16),
    clients: &Vec<ClientInfo>,
    effects: &mut Vec<Effect>,
)
    ensures
        *final(size) == common_size(clients@),
        ({
            let (v, w) = if *old(size) != common_size(clients@) {
                (state::marked(resized(old(ui)@).0), resized(old(ui)@).1)
            } else {
                (old(ui)@, seq![])
            };
            final(ui)@ == v && state::work(final(effects)@) == state::work(old(effects)@) + w
        }),
{
    if fit_size(ui, size, clients, effects) {
        ui.mark_layout();
    }
}

// ─── Coming and going ──────────────────────────────────────

/// The clients after one more tried to attach: one that steals the session
/// takes the place of all others. `connected` tells whether it got through.
pub open spec fn joined(clients: Seq<ClientInfo>, new: ClientInfo, connected: bool) -> Seq<
    ClientInfo,
> {
    let stay = if new.mode == AttachMode::Steal {
        seq![]
    } else {
        clients
    };
    if connected {
        stay.push(new)
    } else {
        stay
    }
}

/// Takes in a client: the list of clients changes, the screen is fitted, and
/// everything is drawn for it.
pub fn accept_client(
    ui: &mut Ui,
    size: &mut (u16, u16),
    clients: &mut Vec<ClientInfo>,
    new: ClientInfo,
    connected: bool,
    effects: &mut Vec<Effect>,
)
    ensures
        final(clients)@ == joined(old(clients)@, new, connected),
        *final(size) == common_size(final(clients)@),
        ({
            let (v, w) = if *old(size) != common_size(joined(old(clients)@, new, connected)) {
                resized(old(ui)@)
            } else {
                (old(ui)@, seq![])
            };
            final(ui)@ == state::marked(v) && state::work(final(effects)@) == state::work(
                old(effects)@,
            ) + w
        }),
{
    if new.mode == AttachMode::Steal {
        clients.clear();
        assert(clients@ =~= seq![]);
    }
    if connected {
        clients.push(new);
    }
    let _ = fit_size(ui, size, clients, effects);
    ui.mark_layout();
}

/// After a client stole the session, nobody else is attached.
pub proof fn stealing_leaves_one_client(clients: Seq<ClientInfo>, new: ClientInfo)
    requires
        new.mode == AttachMode::Steal,
    ensures
        joined(clients, new, true) == seq![new],
{
    assert(joined(clients, new, true) =~= seq![new]);
}

/// The clients that stay when those of some numbers leave.
pub open spec fn staying(clients: Seq<ClientInfo>, gone: Seq<u64>) -> Seq<ClientInfo>
    decreases clients.len(),
{
    if clients.len() == 0 {
        seq![]
    } else {
        let before = staying(clients.drop_last(), gone);
        if gone.contains(clients.last().id) {
            before
        } else {
            before.push(clients.last())
        }
    }
}

fn is_gone(gone: &Vec<u64>, id: u64) -> (r: bool)
    ensures
        r == gone@.contains(id),
{
    let mut i: usize = 0;
    while i < gone.len()
        invariant
            i <= gone@.len(),
            forall|j: int| 0 <= j < i ==> gone@[j] != id,
        decreases gone@.len() - i,
    {
        if gone[i] == id {
            return true;
        }
        i += 1;
    }
    false
}

/// The clients that stay when those of some numbers leave.
pub fn without_clients(clients: &Vec<ClientInfo>, gone: &Vec<u64>) -> (r: Vec<ClientInfo>)
    ensures
        r@ == staying(clients@, gone@),
{
    let mut out: Vec<ClientInfo> = Vec::new();
    let mut i: usize = 0;
    while i < clients.len()
        invariant
            i <= clients@.len(),
            out@ == staying(clients@.take(i as int), gone@),
        decreases clients@.len() - i,
    {
        assert(clients@.take(i + 1).drop_last() =~= clients@.take(i as int));
        if !is_gone(gone, clients[i].id) {
            out.push(clients[i]);
        }
        i += 1;
    }
    assert(clients@.take(i as int) =~= clients@);
    out
}

/// The numbers of the clients that may send input. They are the ones that
/// leave when a key asks to detach.
pub open spec fn writers(clients: Seq<ClientInfo>) -> Seq<u64>
    decreases clients.len(),
{
    if clients.len() == 0 {
        seq![]
    } else {
        let before = writers(clients.drop_last());
        if clients.last().mode == AttachMode::Readonly {
            before
        } else {
            before.push(clients.last().id)
        }
    }
}

/// Adds the clients that leave when a key asks to detach.
pub fn detach_writers(clients: &Vec<ClientInfo>, gone: &mut Vec<u64>)
    ensures
        final(gone)@ == old(gone)@ + writers(clients@),
{
    let mut i: usize = 0;
    assert(gone@ + writers(clients@.take(0)) =~= gone@);
    while i < clients.len()
        invariant
            i <= clients@.len(),
            gone@ == old(gone)@ + writers(clients@.take(i as int)),
        decreases clients@.len() - i,
    {
        assert(clients@.take(i + 1).drop_last() =~= clients@.take(i as int));
        if clients[i].mode != AttachMode::Readonly {
            gone.push(clients[i].id);
        }
        assert(gone@ =~= old(gone)@ + writers(clients@.take(i + 1)));
        i += 1;
    }
    assert(clients@.take(i as int) =~= clients@);
}

/// A client that only watches stays when a key asks to detach.
pub proof fn watchers_stay(clients: Seq<ClientInfo>, c: ClientInfo)
    requires
        clients.contains(c),
        c.mode == AttachMode::Readonly,
        forall|i: int, j: int|
            0 <= i < clients.len() && 0 <= j < clients.len() && (#[trigger] clients[i]).id == (
            #[trigger] clients[j]).id ==> i == j,
    ensures
        !writers(clients).contains(c.id),
{
    let w = writers(clients);
    if w.contains(c.id) {
        let k = w.index_of(c.id);
        lemma_writer(clients, k);
        let i = choose|i: int|
            0 <= i < clients.len() && (#[trigger] clients[i]).id == w[k] && clients[i].mode
                != AttachMode::Readonly;
        let j = clients.index_of(c);
        assert(clients[i].id == clients[j].id);
    }
}

proof fn lemma_writer(clients: Seq<ClientInfo>, k: int)
    requires
        0 <= k < writers(clients).len(),
    ensures
        exists|i: int|
            0 <= i < clients.len() && (#[trigger] clients[i]).id == writers(clients)[k]
                && clients[i].mode != AttachMode::Readonly,
    decreases clients.len(),
{
    if clients.len() > 0 {
        let rest = clients.drop_last();
        let before = writers(rest);
        if k < before.len() {
            lemma_writer(rest, k);
            let i = choose|i: int|
                0 <= i < rest.len() && (#[trigger] rest[i]).id == before[k] && rest[i].mode
                    != AttachMode::Readonly;
            assert(clients[i] == rest[i]);
        } else {
            assert(clients[clients.len() - 1].id == writers(clients)[k]);
        }
    }
}

// ─── Messages ──────────────────────────────────────────────

/// The first message of a connection.
#[derive(Clone, Copy, Debug, PartialEq, Eq, Structural)]
pub enum FirstMessage {
    /// A probe: answer it and change nothing.
    Ping,
    /// End the session.
    Kill,
    /// Attach as the message says.
    Attach,
    /// Attach and steal the session, at this size.
    AttachOld(u16, u16),
    Ignore,
}

pub open spec fn first_of(tag: u8, payload: Seq<u8>) -> FirstMessage {
    if tag == protocol::C_PING {
        FirstMessage::Ping
    } else if tag == protocol::C_KILL {
        FirstMessage::Kill
    } else if tag == protocol::C_ATTACH {
        FirstMessage::Attach
    } else if tag == protocol::C_RESIZE {
        match protocol::resize_of(payload) {
            Some((w, h)) => FirstMessage::AttachOld(w, h),
            None => FirstMessage::Ignore,
        }
    } else {
        FirstMessage::Ignore
    }
}

/// What the first message of a connection asks for.
pub fn first_message(tag: u8, payload: &[u8]) -> (r: FirstMessage)
    ensures
        r == first_of(tag, payload@),
{
    if tag == protocol::C_PING {
        FirstMessage::Ping
    } else if tag == protocol::C_KILL {
        FirstMessage::Kill
    } else if tag == protocol::C_ATTACH {
        FirstMessage::Attach
    } else if tag == protocol::C_RESIZE {
        match protocol::decode_resize(payload) {
            Some((w, h)) => FirstMessage::AttachOld(w, h),
            None => FirstMessage::Ignore,
        }
    } else {
        FirstMessage::Ignore
    }
}

/// A message of an attached client.
#[derive(Clone, Copy, Debug, PartialEq, Eq, Structural)]
pub enum ClientMsg {
    /// An event of its terminal.
    Event,
    Resize(u16, u16),
    Detach,
    Disconnected,
    Kill,
}

pub open spec fn message_of(tag: u8, payload: Seq<u8>) -> Option<ClientMsg> {
    if tag == protocol::C_EVENT {
        Some(ClientMsg::Event)
    } else if tag == protocol::C_RESIZE {
        match protocol::resize_of(payload) {
            Some((w, h)) => Some(ClientMsg::Resize(w, h)),
            None => None,
        }
    } else if tag == protocol::C_DETACH {
        Some(ClientMsg::Detach)
    } else if tag == protocol::C_KILL {
        Some(ClientMsg::Kill)
    } else {
        None
    }
}

/// What a frame of an attached client means. Others are passed over.
pub fn client_message(tag: u8, payload: &[u8]) -> (r: Option<ClientMsg>)
    ensures
        r == message_of(tag, payload@),
{
    if tag == protocol::C_EVENT {
        Some(ClientMsg::Event)
    } else if tag == protocol::C_RESIZE {
        match protocol::decode_resize(payload) {
            Some((w, h)) => Some(ClientMsg::Resize(w, h)),
            None => None,
        }
    } else if tag == protocol::C_DETACH {
        Some(ClientMsg::Detach)
    } else if tag == protocol::C_KILL {
        Some(ClientMsg::Kill)
    } else {
        None
    }
}

/// What the messages of all clients came to so far.
#[derive(Debug)]
pub struct Intake {
    /// Clients that asked to leave.
    pub detach: Vec<u64>,
    /// Clients that are gone.
    pub disconnect: Vec<u64>,
    pub kill: bool,
    pub size_changed: bool,
}

/// What to do after a message.
#[derive(Clone, Copy, Debug, PartialEq, Eq, Structural)]
pub enum NextRead {
    /// Handle the event, then read on.
    Handle,
    /// Read on.
    More,
    /// Go on to the next client.
    NextClient,
    /// The session ends.
    End,
}

impl Intake {
    pub fn new() -> (r: Intake)
        ensures
            r.detach@ == Seq::<u64>::empty(),
            r.disconnect@ == Seq::<u64>::empty(),
            !r.kill,
            !r.size_changed,
    {
        Intake { detach: Vec::new(), disconnect: Vec::new(), kill: false, size_changed: false }
    }

    /// Takes in a message of a client. Input of one that only watches is
    /// passed over.
    pub fn take(&mut self, client: &mut ClientInfo, msg: ClientMsg) -> (r: NextRead)
        ensures
            r == (match msg {
                ClientMsg::Event => if old(client).mode == AttachMode::Readonly {
                    NextRead::More
                } else {
                    NextRead::Handle
                },
                ClientMsg::Resize(_, _) => NextRead::More,
                ClientMsg::Detach => NextRead::NextClient,
                ClientMsg::Disconnected => NextRead::NextClient,
                ClientMsg::Kill => NextRead::End,
            }),
            *final(client) == (match msg {
                ClientMsg::Resize(w, h) => ClientInfo { tw: w, th: h, ..*old(client) },
                _ => *old(client),
            }),
            final(self).detach@ == (if msg == ClientMsg::Detach {
                old(self).detach@.push(old(client).id)
            } else {
                old(self).detach@
            }),
            final(self).disconnect@ == (if msg == ClientMsg::Disconnected {
                old(self).disconnect@.push(old(client).id)
            } else {
                old(self).disconnect@
            }),
            final(self).kill == (old(self).kill || msg == ClientMsg::Kill),
            final(self).size_changed == (old(self).size_changed || msg is Resize),
    {
        match msg {
            ClientMsg::Event => {
                if client.mode == AttachMode::Readonly {
                    NextRead::More
                } else {
                    NextRead::Handle
                }
            },
            ClientMsg::Resize(w, h) => {
                client.tw = w;
                client.th = h;
                self.size_changed = true;
                NextRead::More
            },
            ClientMsg::Detach => {
                self.detach.push(client.id);
                NextRead::NextClient
            },
            ClientMsg::Disconnected => {
                self.disconnect.push(client.id);
                NextRead::NextClient
            },
            ClientMsg::Kill => {
                self.kill = true;
                NextRead::End
            },
        }
    }

    /// Tells whether the session is to be saved because its last client left.
    pub fn last_client_left(&self, had: usize, left: usize) -> (r: bool)
        ensures
            r == (had > 0 && left == 0 && (self.detach@.len() > 0 || self.disconnect@.len() > 0)),
    {
        had > 0 && left == 0 && (self.detach.len() > 0 || self.disconnect.len() > 0)
    }
}

/// The screen is as wide as the narrowest client and as high as the lowest one.
pub proof fn size_is_that_of_a_client(clients: Seq<ClientInfo>)
    requires
        clients.len() > 0,
    ensures
        exists|i: int|
            0 <= i < clients.len() && (#[trigger] clients[i]).tw == common_size(clients).0,
        exists|i: int|
            0 <= i < clients.len() && (#[trigger] clients[i]).th == common_size(clients).1,
    decreases clients.len(),
{
    let init = clients.drop_last();
    let n = clients.len() - 1;
    assert(clients[n] == clients.last());
    if init.len() > 0 {
        size_is_that_of_a_client(init);
        let i = choose|i: int| 0 <= i < init.len() && (#[trigger] init[i]).tw == common_size(init).0;
        let j = choose|j: int| 0 <= j < init.len() && (#[trigger] init[j]).th == common_size(init).1;
        assert(clients[i] == init[i]);
        assert(clients[j] == init[j]);
    } else {
        assert(narrowest(init) == u16::MAX);
        assert(lowest(init) == u16::MAX);
    }
}

/// Clients speak in numbered frames: an event is 1, leaving 2, a new size 3, the
/// end of the session 4, a probe 5 and attaching 6. A size is given by two bytes
/// for the columns and two for the rows, the higher one first.
pub proof fn frames_mean_what_their_numbers_say(payload: Seq<u8>)
    requires
        payload.len() >= 4,
    ensures
        ({
            let cols = (payload[0] * 0x100 + payload[1]) as u16;
            let rows = (payload[2] * 0x100 + payload[3]) as u16;
            &&& message_of(0x01, payload) == Some(ClientMsg::Event)
            &&& message_of(0x02, payload) == Some(ClientMsg::Detach)
            &&& message_of(0x03, payload) == Some(ClientMsg::Resize(cols, rows))
            &&& message_of(0x04, payload) == Some(ClientMsg::Kill)
            &&& first_of(0x03, payload) == FirstMessage::AttachOld(cols, rows)
            &&& first_of(0x04, payload) == FirstMessage::Kill
            &&& first_of(0x05, payload) == FirstMessage::Ping
            &&& first_of(0x06, payload) == FirstMessage::Attach
        }),
{
}

} // verus!
