//! Request and response bookkeeping of the savefile-backed persistence layer. The database
//! thread that executes the commands runs outside this library.
use std::collections::VecDeque;

use vstd::prelude::*;

use crate::coordinates::AbsChunkPos;
use crate::voxel::chunk::{BlockEntry, Chunk};
use crate::voxel::persistence::{drain_front_into, ChunkProviderResult};

verus! {

/// A command for the database thread.
pub enum DatabaseThreadCommand {
    /// Stop the thread after the commands before this one.
    Shutdown,
    /// Load the given chunk positions.
    Load(Vec<AbsChunkPos>),
    /// Save the given chunks.
    Save(Vec<(AbsChunkPos, Chunk)>),
}

/// A reply from the database thread.
pub enum DatabaseThreadResponse {
    /// The thread has stopped.
    ShutdownDone,
    /// A command failed; the error was already reported by the thread.
    Error(anyhow::Error),
    /// The results of a load command, for the positions found in the savefile.
    LoadDone(Vec<ChunkProviderResult>),
    /// A save command completed.
    SaveDone,
}

/// What a command says, with chunks taken by their blocks.
pub enum CommandView {
    Shutdown,
    Load(Seq<AbsChunkPos>),
    Save(Seq<(AbsChunkPos, Seq<BlockEntry>)>),
}

/// The blocks of each chunk to save, in order.
pub open spec fn saves_view(chunks: Seq<(AbsChunkPos, Chunk)>) -> Seq<(AbsChunkPos, Seq<BlockEntry>)> {
    chunks.map_values(|e: (AbsChunkPos, Chunk)| (e.0, e.1@))
}

/// The view of one command.
pub open spec fn command_view(c: DatabaseThreadCommand) -> CommandView {
    match c {
        DatabaseThreadCommand::Shutdown => CommandView::Shutdown,
        DatabaseThreadCommand::Load(v) => CommandView::Load(v@),
        DatabaseThreadCommand::Save(v) => CommandView::Save(saves_view(v@)),
    }
}

/// All positions requested for loading, across the load commands, in queue order.
pub open spec fn all_loads(cmds: Seq<CommandView>) -> Seq<AbsChunkPos>
    decreases cmds.len(),
{
    if cmds.len() == 0 {
        Seq::empty()
    } else {
        all_loads(cmds.drop_last()) + match cmds.last() {
            CommandView::Load(v) => v,
            _ => Seq::empty(),
        }
    }
}

/// All chunks requested for saving, across the save commands, in queue order.
pub open spec fn all_saves(cmds: Seq<CommandView>) -> Seq<(AbsChunkPos, Seq<BlockEntry>)>
    decreases cmds.len(),
{
    if cmds.len() == 0 {
        Seq::empty()
    } else {
        all_saves(cmds.drop_last()) + match cmds.last() {
            CommandView::Save(v) => v,
            _ => Seq::empty(),
        }
    }
}

/// The number of shutdown commands.
pub open spec fn shutdown_count(cmds: Seq<CommandView>) -> nat
    decreases cmds.len(),
{
    if cmds.len() == 0 {
        0
    } else {
        shutdown_count(cmds.drop_last()) + if cmds.last() is Shutdown { 1nat } else { 0nat }
    }
}

/// The queue with `coords` added: appended to the last command when that is a load, else as a
/// new load command.
pub open spec fn with_load(cmds: Seq<CommandView>, coords: Seq<AbsChunkPos>) -> Seq<CommandView> {
    if coords.len() == 0 {
        cmds
    } else if cmds.len() > 0 && cmds.last() is Load {
        cmds.drop_last().push(CommandView::Load(cmds.last()->Load_0 + coords))
    } else {
        cmds.push(CommandView::Load(coords))
    }
}

/// The queue with `chunks` added: appended to the last command when that is a save, else as a
/// new save command.
pub open spec fn with_save(cmds: Seq<CommandView>, chunks: Seq<(AbsChunkPos, Seq<BlockEntry>)>) -> Seq<CommandView> {
    if chunks.len() == 0 {
        cmds
    } else if cmds.len() > 0 && cmds.last() is Save {
        cmds.drop_last().push(CommandView::Save(cmds.last()->Save_0 + chunks))
    } else {
        cmds.push(CommandView::Save(chunks))
    }
}

/// Every load command with the positions in `coords` taken out.
pub open spec fn without_loads_of(cmds: Seq<CommandView>, coords: Seq<AbsChunkPos>) -> Seq<CommandView> {
    cmds.map_values(
        |c: CommandView|
            match c {
                CommandView::Load(v) => CommandView::Load(v.filter(|p: AbsChunkPos| !coords.contains(p))),
                other => other,
            },
    )
}

/// The queue without its load commands, followed by a shutdown command.
pub open spec fn shut_down(cmds: Seq<CommandView>) -> Seq<CommandView> {
    cmds.filter(|c: CommandView| !(c is Load)).push(CommandView::Shutdown)
}

proof fn lemma_loads_push(cmds: Seq<CommandView>, c: CommandView)
    ensures
        all_loads(cmds.push(c)) == all_loads(cmds) + match c {
            CommandView::Load(v) => v,
            _ => Seq::empty(),
        },
        all_saves(cmds.push(c)) == all_saves(cmds) + match c {
            CommandView::Save(v) => v,
            _ => Seq::empty(),
        },
        shutdown_count(cmds.push(c)) == shutdown_count(cmds) + if c is Shutdown { 1nat } else { 0nat },
{
    assert(cmds.push(c).drop_last() =~= cmds);
}

/// Adding loads keeps every save and shutdown, and the load positions gain exactly `coords`
/// at the end; adding saves keeps every load and shutdown and the saves gain exactly `chunks`.
pub proof fn lemma_coalescing_keeps_order(
    cmds: Seq<CommandView>,
    coords: Seq<AbsChunkPos>,
    chunks: Seq<(AbsChunkPos, Seq<BlockEntry>)>,
)
    ensures
        all_loads(with_load(cmds, coords)) == all_loads(cmds) + coords,
        all_saves(with_load(cmds, coords)) == all_saves(cmds),
        shutdown_count(with_load(cmds, coords)) == shutdown_count(cmds),
        all_saves(with_save(cmds, chunks)) == all_saves(cmds) + chunks,
        all_loads(with_save(cmds, chunks)) == all_loads(cmds),
        shutdown_count(with_save(cmds, chunks)) == shutdown_count(cmds),
{
    if coords.len() == 0 {
        assert(all_loads(cmds) + coords =~= all_loads(cmds));
    } else if cmds.len() > 0 && cmds.last() is Load {
        let init = cmds.drop_last();
        lemma_loads_push(init, CommandView::Load(cmds.last()->Load_0 + coords));
        lemma_loads_push(init, cmds.last());
        assert(init.push(cmds.last()) =~= cmds);
        assert(all_loads(init) + (cmds.last()->Load_0 + coords) =~= (all_loads(init) + cmds.last()->Load_0)
            + coords);
        assert(all_saves(init) + Seq::empty() =~= all_saves(init));
    } else {
        lemma_loads_push(cmds, CommandView::Load(coords));
        assert(all_saves(cmds) + Seq::empty() =~= all_saves(cmds));
    }
    if chunks.len() == 0 {
        assert(all_saves(cmds) + chunks =~= all_saves(cmds));
    } else if cmds.len() > 0 && cmds.last() is Save {
        let init = cmds.drop_last();
        lemma_loads_push(init, CommandView::Save(cmds.last()->Save_0 + chunks));
        lemma_loads_push(init, cmds.last());
        assert(init.push(cmds.last()) =~= cmds);
        assert(all_saves(init) + (cmds.last()->Save_0 + chunks) =~= (all_saves(init) + cmds.last()->Save_0)
            + chunks);
        assert(all_loads(init) + Seq::empty() =~= all_loads(init));
    } else {
        lemma_loads_push(cmds, CommandView::Save(chunks));
        assert(all_loads(cmds) + Seq::empty() =~= all_loads(cmds));
    }
}

proof fn lemma_filter_non_loads(cmds: Seq<CommandView>)
    ensures
        all_loads(cmds.filter(|c: CommandView| !(c is Load))) == Seq::<AbsChunkPos>::empty(),
        all_saves(cmds.filter(|c: CommandView| !(c is Load))) == all_saves(cmds),
    decreases cmds.len(),
{
    let f = |c: CommandView| !(c is Load);
    reveal(Seq::filter);
    if cmds.len() == 0 {
        assert(cmds.filter(f) =~= Seq::<CommandView>::empty());
    } else {
        let init = cmds.drop_last();
        let c = cmds.last();
        lemma_filter_non_loads(init);
        assert(init.push(c) =~= cmds);
        lemma_loads_push(init, c);
        if f(c) {
            assert(cmds.filter(f) == init.filter(f).push(c));
            lemma_loads_push(init.filter(f), c);
            assert(Seq::<AbsChunkPos>::empty() + Seq::<AbsChunkPos>::empty() =~= Seq::<AbsChunkPos>::empty());
        } else {
            assert(cmds.filter(f) == init.filter(f));
            assert(all_saves(cmds) =~= all_saves(init));
        }
    }
}

/// After a shutdown request no load is pending, every pending save is kept, and the queue ends
/// with a shutdown command.
pub proof fn lemma_shutdown_drops_loads_keeps_saves(cmds: Seq<CommandView>)
    ensures
        all_loads(shut_down(cmds)) == Seq::<AbsChunkPos>::empty(),
        all_saves(shut_down(cmds)) == all_saves(cmds),
        shut_down(cmds).last() is Shutdown,
{
    let f = |c: CommandView| !(c is Load);
    lemma_filter_non_loads(cmds);
    lemma_loads_push(cmds.filter(f), CommandView::Shutdown);
    assert(Seq::<AbsChunkPos>::empty() + Seq::<AbsChunkPos>::empty() =~= Seq::<AbsChunkPos>::empty());
    assert(all_saves(cmds.filter(f)) + Seq::empty() =~= all_saves(cmds.filter(f)));
}

proof fn lemma_filter_all(s: Seq<AbsChunkPos>, f: spec_fn(AbsChunkPos) -> bool)
    requires
        forall|i: int| 0 <= i < s.len() ==> f(#[trigger] s[i]),
    ensures
        s.filter(f) == s,
    decreases s.len(),
{
    reveal(Seq::filter);
    if s.len() > 0 {
        lemma_filter_all(s.drop_last(), f);
        assert(s.drop_last().push(s.last()) =~= s);
    } else {
        assert(s.filter(f) =~= s);
    }
}

/// The positions of `v` that are not in `remove`, in order.
fn filter_out_positions(v: &Vec<AbsChunkPos>, remove: &[AbsChunkPos]) -> (r: Vec<AbsChunkPos>)
    ensures
        r@ == v@.filter(|p: AbsChunkPos| !remove@.contains(p)),
{
    let mut out: Vec<AbsChunkPos> = Vec::new();
    let mut i: usize = 0;
    while i < v.len()
        invariant
            i <= v@.len(),
            out@ == v@.subrange(0, i as int).filter(|q: AbsChunkPos| !remove@.contains(q)),
        decreases v@.len() - i,
    {
        let p = v[i];
        let mut found = false;
        let mut j: usize = 0;
        while j < remove.len()
            invariant
                j <= remove@.len(),
                found == (exists|k: int| 0 <= k < j && remove@[k] == p),
            decreases remove@.len() - j,
        {
            if remove[j] == p {
                found = true;
            }
            j = j + 1;
        }
        proof {
            reveal(Seq::filter);
            assert(v@.subrange(0, i + 1).drop_last() =~= v@.subrange(0, i as int));
            assert(found == remove@.contains(p));
        }
        let ghost prev = out@;
        if !found {
            out.push(p);
        }
        proof {
            let t = v@.subrange(0, i + 1);
            assert(t.last() == p);
            assert(t.drop_last() =~= v@.subrange(0, i as int));
            assert(t.filter(|q: AbsChunkPos| !remove@.contains(q)) == if !remove@.contains(p) { prev.push(p) } else { prev });
            assert(out@ == t.filter(|q: AbsChunkPos| !remove@.contains(q)));
        }
        i = i + 1;
    }
    proof {
        assert(v@.subrange(0, v@.len() as int) =~= v@);
    }
    out
}

/// The pending commands for the database thread, oldest first.
pub struct SavefileCommandQueue {
    commands: Vec<DatabaseThreadCommand>,
}

impl View for SavefileCommandQueue {
    type V = Seq<CommandView>;

    /// The pending commands.
    closed spec fn view(&self) -> Seq<CommandView> {
        self.commands@.map_values(|c: DatabaseThreadCommand| command_view(c))
    }
}

impl SavefileCommandQueue {
    /// An empty queue.
    pub fn new() -> (r: SavefileCommandQueue)
        ensures
            r@ == Seq::<CommandView>::empty(),
    {
        let r = SavefileCommandQueue { commands: Vec::new() };
        assert(r@ =~= Seq::<CommandView>::empty());
        r
    }

    /// Queues loads of `coordinates`, merging them into the last command when it is a load.
    pub fn request_load(&mut self, coordinates: &[AbsChunkPos])
        ensures
            final(self)@ == with_load(old(self)@, coordinates@),
    {
        if coordinates.len() == 0 {
            return;
        }
        let n = self.commands.len();
        let mut merged = false;
        if n > 0 {
            if let DatabaseThreadCommand::Load(_) = &self.commands[n - 1] {
                merged = true;
            }
        }
        if merged {
            let last = self.commands.pop();
            match last {
                Some(DatabaseThreadCommand::Load(mut loads)) => {
                    let ghost l0 = loads@;
                    loads.extend_from_slice(coordinates);
                    assert(loads@ =~= l0 + coordinates@);
                    assert(old(self)@.last() is Load);
                    self.commands.push(DatabaseThreadCommand::Load(loads));
                    proof {
                        assert(self@ =~= with_load(old(self)@, coordinates@)) by {
                            assert(old(self)@.drop_last() =~= self.commands@.drop_last().map_values(
                                |c: DatabaseThreadCommand| command_view(c),
                            ));
                        }
                    }
                },
                _ => {
                    assert(false);
                },
            }
        } else {
            let mut v: Vec<AbsChunkPos> = Vec::new();
            v.extend_from_slice(coordinates);
            assert(v@ =~= coordinates@);
            assert(n == 0 || !(old(self)@.last() is Load));
            self.commands.push(DatabaseThreadCommand::Load(v));
            proof {
                assert(self@ =~= with_load(old(self)@, coordinates@));
            }
        }
    }

    /// Queues saves of `chunks`, merging them into the last command when it is a save.
    pub fn request_save(&mut self, chunks: Vec<(AbsChunkPos, Chunk)>)
        ensures
            final(self)@ == with_save(old(self)@, saves_view(chunks@)),
    {
        if chunks.len() == 0 {
            proof {
                assert(saves_view(chunks@).len() == 0);
            }
            return;
        }
        let n = self.commands.len();
        let mut merged = false;
        if n > 0 {
            if let DatabaseThreadCommand::Save(_) = &self.commands[n - 1] {
                merged = true;
            }
        }
        if merged {
            let last = self.commands.pop();
            match last {
                Some(DatabaseThreadCommand::Save(mut saves)) => {
                    let ghost s0 = saves@;
                    let ghost c0 = chunks@;
                    let mut chunks = chunks;
                    saves.append(&mut chunks);
                    self.commands.push(DatabaseThreadCommand::Save(saves));
                    proof {
                        assert(saves_view(saves@) =~= saves_view(s0) + saves_view(c0));
                        assert(old(self)@.drop_last() =~= self.commands@.drop_last().map_values(
                            |c: DatabaseThreadCommand| command_view(c),
                        ));
                        assert(self@ =~= with_save(old(self)@, saves_view(c0)));
                    }
                },
                _ => {
                    assert(false);
                },
            }
        } else {
            self.commands.push(DatabaseThreadCommand::Save(chunks));
            proof {
                assert(self@ =~= with_save(old(self)@, saves_view(chunks@)));
            }
        }
    }

    /// Removes the positions in `coordinates` from every queued load command.
    pub fn cancel_load(&mut self, coordinates: &[AbsChunkPos])
        ensures
            final(self)@ == without_loads_of(old(self)@, coordinates@),
    {
        if coordinates.len() == 0 {
            proof {
                assert forall|i: int| 0 <= i < self@.len() implies #[trigger] without_loads_of(self@, coordinates@)[i]
                    == self@[i] by {
                    if let CommandView::Load(v) = self@[i] {
                        let f = |p: AbsChunkPos| !coordinates@.contains(p);
                        lemma_filter_all(v, f);
                    }
                }
                assert(without_loads_of(self@, coordinates@) =~= self@);
            }
            return;
        }
        let ghost c0 = self@;
        let mut old_commands: Vec<DatabaseThreadCommand> = Vec::new();
        std::mem::swap(&mut old_commands, &mut self.commands);
        let ghost oc = old_commands@;
        let mut out: Vec<DatabaseThreadCommand> = Vec::new();
        let mut i: usize = 0;
        let len = old_commands.len();
        let mut rest = old_commands;
        while i < len
            invariant
                len == oc.len(),
                i <= len,
                rest@ == oc.subrange(i as int, len as int),
                c0 == oc.map_values(|c: DatabaseThreadCommand| command_view(c)),
                out@.map_values(|c: DatabaseThreadCommand| command_view(c)) == without_loads_of(
                    c0.subrange(0, i as int),
                    coordinates@,
                ),
            decreases len - i,
        {
            let cmd = rest.remove(0);
            let ghost before = out@;
            proof {
                assert(cmd == oc[i as int]);
                assert(command_view(cmd) == c0[i as int]);
            }
            match cmd {
                DatabaseThreadCommand::Load(v) => {
                    let filtered = filter_out_positions(&v, coordinates);
                    out.push(DatabaseThreadCommand::Load(filtered));
                },
                other => {
                    out.push(other);
                },
            }
            proof {
                assert(c0.subrange(0, i + 1) =~= c0.subrange(0, i as int).push(c0[i as int]));
                assert(without_loads_of(c0.subrange(0, i + 1), coordinates@) =~= without_loads_of(
                    c0.subrange(0, i as int),
                    coordinates@,
                ).push(without_loads_of(c0.subrange(0, i + 1), coordinates@)[i as int]));
                assert(out@.map_values(|c: DatabaseThreadCommand| command_view(c)) =~= before.map_values(
                    |c: DatabaseThreadCommand| command_view(c),
                ).push(command_view(out@[i as int])));
                assert(out@.map_values(|c: DatabaseThreadCommand| command_view(c)) =~= without_loads_of(
                    c0.subrange(0, i + 1),
                    coordinates@,
                ));
            }
            i = i + 1;
        }
        self.commands = out;
        proof {
            assert(c0.subrange(0, len as int) =~= c0);
        }
    }

    /// Prepares the thread to stop: drops the queued loads, keeps the queued saves, and queues a
    /// shutdown command.
    pub fn shutdown(&mut self)
        ensures
            final(self)@ == shut_down(old(self)@),
    {
        let ghost c0 = self@;
        let mut old_commands: Vec<DatabaseThreadCommand> = Vec::new();
        std::mem::swap(&mut old_commands, &mut self.commands);
        let ghost oc = old_commands@;
        let mut out: Vec<DatabaseThreadCommand> = Vec::new();
        let mut i: usize = 0;
        let len = old_commands.len();
        let mut rest = old_commands;
        while i < len
            invariant
                len == oc.len(),
                i <= len,
                rest@ == oc.subrange(i as int, len as int),
                c0 == oc.map_values(|c: DatabaseThreadCommand| command_view(c)),
                out@.map_values(|c: DatabaseThreadCommand| command_view(c)) == c0.subrange(0, i as int).filter(
                    |c: CommandView| !(c is Load),
                ),
            decreases len - i,
        {
            let cmd = rest.remove(0);
            proof {
                reveal(Seq::filter);
                assert(c0.subrange(0, i + 1).drop_last() =~= c0.subrange(0, i as int));
            }
            match cmd {
                DatabaseThreadCommand::Load(_) => {},
                other => {
                    out.push(other);
                    proof {
                        assert(out@.map_values(|c: DatabaseThreadCommand| command_view(c)) =~= c0.subrange(
                            0,
                            i as int,
                        ).filter(|c: CommandView| !(c is Load)).push(command_view(other)));
                    }
                },
            }
            i = i + 1;
        }
        out.push(DatabaseThreadCommand::Shutdown);
        self.commands = out;
        proof {
            assert(c0.subrange(0, len as int) =~= c0);
            assert(self@ =~= shut_down(c0));
        }
    }

    /// Takes every queued command, oldest first, leaving the queue empty.
    pub fn take_commands(&mut self) -> (r: Vec<DatabaseThreadCommand>)
        ensures
            r@.map_values(|c: DatabaseThreadCommand| command_view(c)) == old(self)@,
            final(self)@ == Seq::<CommandView>::empty(),
    {
        let mut out: Vec<DatabaseThreadCommand> = Vec::new();
        std::mem::swap(&mut out, &mut self.commands);
        proof {
            assert(self@ =~= Seq::<CommandView>::empty());
        }
        out
    }
}

/// Cancelling removes exactly the cancelled positions from the pending loads, keeping the order
/// of the others, and leaves the pending saves alone.
pub proof fn lemma_cancel_removes_exactly(cmds: Seq<CommandView>, coords: Seq<AbsChunkPos>)
    ensures
        all_loads(without_loads_of(cmds, coords)) == all_loads(cmds).filter(|p: AbsChunkPos| !coords.contains(p)),
        all_saves(without_loads_of(cmds, coords)) == all_saves(cmds),
    decreases cmds.len(),
{
    let f = |p: AbsChunkPos| !coords.contains(p);
    if cmds.len() == 0 {
        reveal(Seq::filter);
        assert(without_loads_of(cmds, coords) =~= Seq::<CommandView>::empty());
        assert(all_loads(cmds).filter(f) =~= Seq::<AbsChunkPos>::empty());
    } else {
        let init = cmds.drop_last();
        let c = cmds.last();
        lemma_cancel_removes_exactly(init, coords);
        let mapped = without_loads_of(cmds, coords);
        assert(mapped.drop_last() =~= without_loads_of(init, coords));
        assert(mapped.drop_last().push(mapped.last()) =~= mapped);
        lemma_loads_push(mapped.drop_last(), mapped.last());
        assert(init.push(c) =~= cmds);
        lemma_loads_push(init, c);
        match c {
            CommandView::Load(v) => {
                Seq::filter_distributes_over_add(all_loads(init), v, f);
                assert(all_saves(init) + Seq::empty() =~= all_saves(init));
            },
            _ => {
                Seq::filter_distributes_over_add(all_loads(init), Seq::empty(), f);
                reveal(Seq::filter);
                assert(Seq::<AbsChunkPos>::empty().filter(f) =~= Seq::<AbsChunkPos>::empty());
                assert(all_loads(init).filter(f) + Seq::empty() =~= all_loads(init).filter(f));
            },
        }
    }
}

/// Load responses waiting to be handed out by the savefile persistence layer.
pub struct SavefileResponses {
    load_response_queue: VecDeque<ChunkProviderResult>,
}

/// The chunks to save for the successful ones among `responses`, in order.
pub open spec fn generated_saves(responses: Seq<ChunkProviderResult>) -> Seq<(AbsChunkPos, Seq<BlockEntry>)>
    decreases responses.len(),
{
    if responses.len() == 0 {
        Seq::empty()
    } else {
        let prev = generated_saves(responses.drop_last());
        match responses.last().1 {
            Ok(c) => prev.push((responses.last().0, c@)),
            Err(_) => prev,
        }
    }
}

/// The load results carried by the thread's responses, in order.
pub open spec fn thread_load_results(responses: Seq<DatabaseThreadResponse>) -> Seq<ChunkProviderResult>
    decreases responses.len(),
{
    if responses.len() == 0 {
        Seq::empty()
    } else {
        thread_load_results(responses.drop_last()) + match responses.last() {
            DatabaseThreadResponse::LoadDone(v) => v@,
            _ => Seq::empty(),
        }
    }
}

impl SavefileResponses {
    /// The responses waiting to be handed out, oldest first.
    pub closed spec fn spec_queue(self) -> Seq<ChunkProviderResult> {
        self.load_response_queue@
    }

    /// No responses waiting.
    pub fn new() -> (r: SavefileResponses)
        ensures
            r.spec_queue() == Seq::<ChunkProviderResult>::empty(),
    {
        SavefileResponses { load_response_queue: VecDeque::new() }
    }

    /// One dequeue round: the chunks freshly generated for positions missing from the savefile
    /// are queued for saving (the successful ones) and for handing out, then the load results
    /// of the database thread are queued, and at most `max_count` of the oldest waiting
    /// responses are handed out. With `max_count` zero nothing happens.
    pub fn try_dequeue_responses(
        &mut self,
        commands: &mut SavefileCommandQueue,
        generated: Vec<ChunkProviderResult>,
        thread_responses: Vec<DatabaseThreadResponse>,
        max_count: usize,
    ) -> (r: Vec<ChunkProviderResult>)
        ensures
            max_count == 0 ==> (r@.len() == 0 && final(self).spec_queue() == old(self).spec_queue()
                && final(commands)@ == old(commands)@),
            max_count > 0 ==> ({
                let all = old(self).spec_queue() + generated@ + thread_load_results(thread_responses@);
                let n = if max_count < all.len() { max_count as int } else { all.len() as int };
                &&& final(commands)@ == with_save(old(commands)@, generated_saves(generated@))
                &&& r@ == all.subrange(0, n)
                &&& final(self).spec_queue() == all.subrange(n, all.len() as int)
            }),
    {
        if max_count == 0 {
            return Vec::new();
        }
        let ghost q0 = self.load_response_queue@;
        let ghost g0 = generated@;
        let mut saves: Vec<(AbsChunkPos, Chunk)> = Vec::new();
        let mut generated = generated;
        let mut i: usize = 0;
        let glen = generated.len();
        while generated.len() > 0
            invariant
                glen == g0.len(),
                generated@.len() + i == glen,
                generated@ == g0.subrange(i as int, glen as int),
                saves_view(saves@) == generated_saves(g0.subrange(0, i as int)),
                self.load_response_queue@ == q0 + g0.subrange(0, i as int),
            decreases generated@.len(),
        {
            let (pos, result) = generated.remove(0);
            proof {
                assert(g0.subrange(0, i + 1).drop_last() =~= g0.subrange(0, i as int));
                assert(g0[i as int] == (pos, result));
            }
            let ghost sv = saves@;
            match &result {
                Ok(c) => {
                    let copy = c.duplicate();
                    saves.push((pos, copy));
                    proof {
                        assert(saves_view(saves@) =~= saves_view(sv).push((pos, c@)));
                    }
                },
                Err(_) => {},
            }
            self.load_response_queue.push_back((pos, result));
            proof {
                assert(self.load_response_queue@ =~= q0 + g0.subrange(0, i + 1));
            }
            i = i + 1;
        }
        proof {
            assert(g0.subrange(0, glen as int) =~= g0);
        }
        commands.request_save(saves);
        let ghost q1 = self.load_response_queue@;
        let ghost t0 = thread_responses@;
        let mut thread_responses = thread_responses;
        let tlen = thread_responses.len();
        let mut j: usize = 0;
        while thread_responses.len() > 0
            invariant
                tlen == t0.len(),
                thread_responses@.len() + j == tlen,
                thread_responses@ == t0.subrange(j as int, tlen as int),
                self.load_response_queue@ == q1 + thread_load_results(t0.subrange(0, j as int)),
            decreases thread_responses@.len(),
        {
            let response = thread_responses.remove(0);
            proof {
                assert(t0.subrange(0, j + 1).drop_last() =~= t0.subrange(0, j as int));
                assert(t0[j as int] == response);
            }
            let ghost before = self.load_response_queue@;
            match response {
                DatabaseThreadResponse::LoadDone(results) => {
                    let ghost rv = results@;
                    let mut results = results;
                    while results.len() > 0
                        invariant
                            self.load_response_queue@ + results@ == before + rv,
                        decreases results@.len(),
                    {
                        let ghost qb = self.load_response_queue@;
                        let ghost rb = results@;
                        let item = results.remove(0);
                        self.load_response_queue.push_back(item);
                        proof {
                            assert(self.load_response_queue@ + results@ =~= qb + rb);
                        }
                    }
                    proof {
                        assert(self.load_response_queue@ =~= before + rv);
                    }
                },
                _ => {
                    proof {
                        assert(before + Seq::<ChunkProviderResult>::empty() =~= before);
                    }
                },
            }
            proof {
                assert(self.load_response_queue@ =~= q1 + thread_load_results(t0.subrange(0, j + 1)));
            }
            j = j + 1;
        }
        proof {
            assert(t0.subrange(0, tlen as int) =~= t0);
        }
        let mut out: Vec<ChunkProviderResult> = Vec::new();
        drain_front_into(&mut self.load_response_queue, &mut out, max_count);
        proof {
            let all = q1 + thread_load_results(t0);
            assert(all =~= q0 + g0 + thread_load_results(t0));
            let n = if max_count < all.len() { max_count as int } else { all.len() as int };
            assert(out@ =~= Seq::<ChunkProviderResult>::empty() + all.subrange(0, n));
        }
        out
    }
}

/// What the database holds for one requested position.
pub enum ReadChunkResult {
    /// The savefile has no chunk there.
    Missing(AbsChunkPos),
    /// The savefile holds the chunk there, as its stored bytes.
    Present(AbsChunkPos, Vec<u8>),
}

/// The positions the savefile holds, with their stored bytes, in order.
pub open spec fn present_results(results: Seq<ReadChunkResult>) -> Seq<(AbsChunkPos, Seq<u8>)>
    decreases results.len(),
{
    if results.len() == 0 {
        Seq::empty()
    } else {
        let prev = present_results(results.drop_last());
        match results.last() {
            ReadChunkResult::Present(p, data) => prev.push((p, data@)),
            ReadChunkResult::Missing(_) => prev,
        }
    }
}

/// The positions the savefile lacks, in order.
pub open spec fn missing_results(results: Seq<ReadChunkResult>) -> Seq<AbsChunkPos>
    decreases results.len(),
{
    if results.len() == 0 {
        Seq::empty()
    } else {
        let prev = missing_results(results.drop_last());
        match results.last() {
            ReadChunkResult::Missing(p) => prev.push(p),
            ReadChunkResult::Present(_, _) => prev,
        }
    }
}

/// Sorts the database's answers to a load: the chunks the savefile holds, to be decoded, and
/// the missing positions, to be generated, each in order.
pub fn split_read_results(results: Vec<ReadChunkResult>) -> (r: (Vec<(AbsChunkPos, Vec<u8>)>, Vec<AbsChunkPos>))
    ensures
        r.0@.map_values(|e: (AbsChunkPos, Vec<u8>)| (e.0, e.1@)) == present_results(results@),
        r.1@ == missing_results(results@),
{
    let ghost all = results@;
    let mut results = results;
    let mut present: Vec<(AbsChunkPos, Vec<u8>)> = Vec::new();
    let mut missing: Vec<AbsChunkPos> = Vec::new();
    let mut rev: Vec<ReadChunkResult> = Vec::new();
    while results.len() > 0
        invariant
            rev@ + results@.reverse() == all.reverse(),
        decreases results@.len(),
    {
        let ghost before = results@;
        match results.pop() {
            Some(x) => {
                proof {
                    assert(before =~= results@.push(x));
                    assert(before.reverse() =~= seq![x] + results@.reverse());
                }
                rev.push(x);
            },
            None => {},
        }
        proof {
            assert(rev@ + results@.reverse() =~= all.reverse());
        }
    }
    proof {
        assert(results@.reverse() =~= Seq::<ReadChunkResult>::empty());
        assert(rev@ =~= all.reverse());
    }
    let ghost n = all.len();
    while rev.len() > 0
        invariant
            rev@.len() <= n,
            n == all.len(),
            rev@ == all.subrange(n - rev@.len(), n as int).reverse(),
            present@.map_values(|e: (AbsChunkPos, Vec<u8>)| (e.0, e.1@)) == present_results(all.take(n - rev@.len())),
            missing@ == missing_results(all.take(n - rev@.len())),
        decreases rev@.len(),
    {
        let ghost k = n - rev@.len();
        let ghost before = rev@;
        match rev.pop() {
            Some(x) => {
                proof {
                    assert(before.last() == all[k]);
                    assert(rev@ =~= all.subrange(k + 1, n as int).reverse());
                    assert(all.take(k + 1).drop_last() =~= all.take(k));
                    assert(all.take(k + 1).last() == x);
                }
                let ghost p0 = present@;
                match x {
                    ReadChunkResult::Missing(p) => {
                        missing.push(p);
                    },
                    ReadChunkResult::Present(p, data) => {
                        present.push((p, data));
                        proof {
                            assert(present@.drop_last() =~= p0);
                            assert(present@.map_values(|e: (AbsChunkPos, Vec<u8>)| (e.0, e.1@)) =~= p0.map_values(
                                |e: (AbsChunkPos, Vec<u8>)| (e.0, e.1@),
                            ).push((p, data@)));
                        }
                    },
                }
            },
            None => {},
        }
    }
    proof {
        assert(all.take(n as int) =~= all);
    }
    (present, missing)
}

/// The view of the commands the database thread runs from a batch: those before the first
/// shutdown; and whether a shutdown came.
pub open spec fn until_shutdown(cmds: Seq<CommandView>) -> (Seq<CommandView>, bool)
    decreases cmds.len(),
{
    if cmds.len() == 0 {
        (Seq::empty(), false)
    } else if cmds[0] is Shutdown {
        (Seq::empty(), true)
    } else {
        let rest = until_shutdown(cmds.drop_first());
        (seq![cmds[0]] + rest.0, rest.1)
    }
}

/// Splits a batch taken by the database thread: the commands it runs, those before the first
/// shutdown; and whether a shutdown came, after which the thread reports that it stopped and
/// runs nothing more.
pub fn commands_before_shutdown(cmds: Vec<DatabaseThreadCommand>) -> (r: (Vec<DatabaseThreadCommand>, bool))
    ensures
        r.0@.map_values(|c: DatabaseThreadCommand| command_view(c)) == until_shutdown(
            cmds@.map_values(|c: DatabaseThreadCommand| command_view(c)),
        ).0,
        r.1 == until_shutdown(cmds@.map_values(|c: DatabaseThreadCommand| command_view(c))).1,
{
    let ghost all = cmds@.map_values(|c: DatabaseThreadCommand| command_view(c));
    let mut queue = cmds;
    let mut run: Vec<DatabaseThreadCommand> = Vec::new();
    let mut stopped = false;
    proof {
        assert(Seq::<CommandView>::empty() + until_shutdown(all).0 =~= until_shutdown(all).0);
    }
    while !stopped && queue.len() > 0
        invariant
            stopped ==> until_shutdown(all) == (run@.map_values(|c: DatabaseThreadCommand| command_view(c)), true),
            !stopped ==> until_shutdown(all) == (
                run@.map_values(|c: DatabaseThreadCommand| command_view(c)) + until_shutdown(
                    queue@.map_values(|c: DatabaseThreadCommand| command_view(c)),
                ).0,
                until_shutdown(queue@.map_values(|c: DatabaseThreadCommand| command_view(c))).1,
            ),
        decreases queue@.len(),
    {
        let ghost before = queue@.map_values(|c: DatabaseThreadCommand| command_view(c));
        let c = queue.remove(0);
        let ghost rest = queue@.map_values(|c: DatabaseThreadCommand| command_view(c));
        proof {
            assert(before.drop_first() =~= rest);
            assert(before[0] == command_view(c));
        }
        match c {
            DatabaseThreadCommand::Shutdown => {
                proof {
                    assert(run@.map_values(|c: DatabaseThreadCommand| command_view(c)) + Seq::<CommandView>::empty()
                        =~= run@.map_values(|c: DatabaseThreadCommand| command_view(c)));
                }
                stopped = true;
            },
            other => {
                let ghost r0 = run@;
                run.push(other);
                proof {
                    assert(run@.map_values(|c: DatabaseThreadCommand| command_view(c)) =~= r0.map_values(
                        |c: DatabaseThreadCommand| command_view(c),
                    ).push(command_view(other)));
                    assert(r0.map_values(|c: DatabaseThreadCommand| command_view(c)) + (seq![command_view(other)]
                        + until_shutdown(rest).0) =~= run@.map_values(|c: DatabaseThreadCommand| command_view(c))
                        + until_shutdown(rest).0);
                }
            },
        }
    }
    proof {
        if !stopped {
            assert(queue@.map_values(|c: DatabaseThreadCommand| command_view(c)) =~= Seq::<CommandView>::empty());
            assert(run@.map_values(|c: DatabaseThreadCommand| command_view(c)) + Seq::<CommandView>::empty()
                =~= run@.map_values(|c: DatabaseThreadCommand| command_view(c)));
        }
    }
    (run, stopped)
}

} // verus!
