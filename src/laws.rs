use vstd::prelude::*;
use vstd::utf8::encode_utf8;
use crate::backend::{
    apply_spec, bind, distinct, has_name, load_slot, run, slot_of, step_spec, AssetKind,
    BackendModel, Effect, MusicState,
};
use crate::protocol::{decode_spec, encode_spec, lemma_round_trip, CommandModel};
use crate::repeat::LOOP_FOREVER;

verus! {

/// In a cache without repeated names, the slot of a name is its position.
pub proof fn lemma_slot_is_position(names: Seq<Seq<char>>, f: Seq<char>, i: int)
    requires
        distinct(names),
        0 <= i < names.len(),
        names[i] == f,
    ensures
        slot_of(names, f) == Some(i as nat),
{
    assert(has_name(names, f));
    let k = choose|k: int| 0 <= k < names.len() && names[k] == f;
    if k < i {
        assert(names[k] != names[i]);
    } else if k > i {
        assert(names[i] != names[k]);
    }
}

/// Loading a name into a cache keeps its names distinct, gives the name the
/// slot of the load, and leaves every other name in its slot.
pub proof fn lemma_bind(names: Seq<Seq<char>>, f: Seq<char>, g: Seq<char>)
    requires
        distinct(names),
    ensures
        distinct(bind(names, f)),
        slot_of(bind(names, f), f) == Some(load_slot(names, f)),
        g != f ==> slot_of(bind(names, f), g) == slot_of(names, g),
{
    let b = bind(names, f);
    if has_name(names, f) {
        let i = choose|i: int| 0 <= i < names.len() && names[i] == f;
        lemma_slot_is_position(names, f, i);
    } else {
        assert(distinct(b)) by {
            assert forall|i: int, j: int| 0 <= i < j < b.len() implies b[i] != b[j] by {
                if j == names.len() {
                    assert(b[i] == names[i]);
                } else {
                    assert(names[i] != names[j]);
                }
            }
        }
        lemma_slot_is_position(b, f, names.len() as int);
    }
    if g != f {
        if has_name(names, g) {
            let i = choose|i: int| 0 <= i < names.len() && names[i] == g;
            lemma_slot_is_position(names, g, i);
            assert(b[i] == g);
            lemma_slot_is_position(b, g, i);
        } else {
            assert(!has_name(b, g)) by {
                if has_name(b, g) {
                    let i = choose|i: int| 0 <= i < b.len() && b[i] == g;
                    assert(names[i] == g);
                }
            }
        }
    }
}

/// Loading the same filename twice leaves the state of a single load: the
/// entry is overwritten in its own slot (the handle loaded there replaces the
/// one before it), and no other filename changes slot.
pub proof fn lemma_load_twice(s: BackendModel, f: Seq<char>, g: Seq<char>)
    requires
        s.wf(),
    ensures
        ({
            let (s1, e1) = apply_spec(s, CommandModel::LoadMusic { filename: f });
            let (s2, e2) = apply_spec(s1, CommandModel::LoadMusic { filename: f });
            s1.wf() && s2 == s1 && e2 == e1 && (g != f ==> slot_of(s1.music, g) == slot_of(
                s.music,
                g,
            ))
        }),
        ({
            let (s1, e1) = apply_spec(s, CommandModel::LoadSound { filename: f });
            let (s2, e2) = apply_spec(s1, CommandModel::LoadSound { filename: f });
            s1.wf() && s2 == s1 && e2 == e1 && (g != f ==> slot_of(s1.sounds, g) == slot_of(
                s.sounds,
                g,
            ))
        }),
{
    lemma_bind(s.music, f, g);
    lemma_bind(s.sounds, f, g);
    let m1 = bind(s.music, f);
    let n1 = bind(s.sounds, f);
    assert(has_name(m1, f));
    assert(has_name(n1, f));
}

/// Handling packets in turn: the effects of a sequence followed by another are
/// those of the first, then those of the second from the state the first left.
pub proof fn lemma_run_concat(s: BackendModel, a: Seq<Seq<u8>>, b: Seq<Seq<u8>>)
    ensures
        run(s, a + b).0 == run(run(s, a).0, b).0,
        run(s, a + b).1 == run(s, a).1 + run(run(s, a).0, b).1,
    decreases b.len(),
{
    if b.len() == 0 {
        assert(a + b =~= a);
        assert(run(s, a).1 + Seq::<Effect>::empty() =~= run(s, a).1);
    } else {
        lemma_run_concat(s, a, b.drop_last());
        assert((a + b).drop_last() =~= a + b.drop_last());
        assert((a + b).last() == b.last());
        let mid = run(s, a);
        let r = run(mid.0, b.drop_last());
        let e = step_spec(r.0, b.last()).1;
        assert(mid.1 + r.1.push(e) =~= (mid.1 + r.1).push(e));
    }
}

/// Packets are applied in the order they were sent: the effect of each packet
/// is what it does to the state that the packets before it left, and there is
/// one effect per packet.
pub proof fn lemma_drain_in_order(s: BackendModel, packets: Seq<Seq<u8>>, i: int)
    requires
        0 <= i < packets.len(),
    ensures
        run(s, packets).1.len() == packets.len(),
        run(s, packets).1[i] == step_spec(run(s, packets.take(i)).0, packets[i]).1,
    decreases packets.len(),
{
    lemma_run_len(s, packets);
    let d = packets.drop_last();
    if i == packets.len() - 1 {
        assert(d =~= packets.take(i));
    } else {
        lemma_drain_in_order(s, d, i);
        assert(d.take(i) =~= packets.take(i));
    }
}

proof fn lemma_run_len(s: BackendModel, packets: Seq<Seq<u8>>)
    ensures
        run(s, packets).1.len() == packets.len(),
    decreases packets.len(),
{
    if packets.len() > 0 {
        lemma_run_len(s, packets.drop_last());
    }
}

/// A drain of no packet changes nothing and makes no mixer call.
pub proof fn lemma_empty_drain(s: BackendModel)
    ensures
        run(s, Seq::empty()) == (s, Seq::<Effect>::empty()),
{
}

/// A malformed packet between valid ones is reported and dropped: the state is
/// as if it had not been sent, and the packets around it have their effects.
pub proof fn lemma_malformed_isolated(
    s: BackendModel,
    before: Seq<Seq<u8>>,
    bad: Seq<u8>,
    after: Seq<Seq<u8>>,
)
    requires
        decode_spec(bad) is Err,
    ensures
        run(s, before + seq![bad] + after).0 == run(s, before + after).0,
        run(s, before + seq![bad] + after).1 == run(s, before).1 + seq![
            Effect::Malformed(decode_spec(bad)->Err_0),
        ] + run(run(s, before).0, after).1,
        run(s, before + after).1 == run(s, before).1 + run(run(s, before).0, after).1,
{
    let mid = run(s, before).0;
    lemma_run_concat(s, before + seq![bad], after);
    lemma_run_concat(s, before, seq![bad]);
    lemma_run_concat(s, before, after);
    assert(seq![bad].drop_last() =~= Seq::<Seq<u8>>::empty());
    assert(run(mid, Seq::<Seq<u8>>::empty()) == (mid, Seq::<Effect>::empty()));
    assert(Seq::<Effect>::empty().push(Effect::Malformed(decode_spec(bad)->Err_0)) =~= seq![
        Effect::Malformed(decode_spec(bad)->Err_0),
    ]);
    assert(run(mid, seq![bad]) == (mid, seq![Effect::Malformed(decode_spec(bad)->Err_0)]));
}

/// A play of a filename that was never loaded is reported as not bound and
/// changes nothing.
pub proof fn lemma_play_unbound(s: BackendModel, f: Seq<char>, loops: i32)
    requires
        encode_utf8(f).len() <= u64::MAX,
        !has_name(s.music, f),
        !has_name(s.sounds, f),
    ensures
        step_spec(s, encode_spec(CommandModel::PlayMusic { filename: f, loops })) == (
            s,
            Effect::AssetNotBound { kind: AssetKind::Music, filename: f },
        ),
        step_spec(s, encode_spec(CommandModel::PlaySound { filename: f, loops })) == (
            s,
            Effect::AssetNotBound { kind: AssetKind::Sound, filename: f },
        ),
{
    lemma_round_trip(CommandModel::PlayMusic { filename: f, loops });
    lemma_round_trip(CommandModel::PlaySound { filename: f, loops });
}

/// Loading a file, playing it forever, pausing, resuming and stopping it, sent
/// in that order and drained at once, makes exactly the mixer calls load, play
/// (forever), pause, resume and halt, and leaves the music stopped.
pub proof fn lemma_load_play_pause_resume_stop(s: BackendModel, f: Seq<char>)
    requires
        s.wf(),
        encode_utf8(f).len() <= u64::MAX,
    ensures
        ({
            let packets = seq![
                encode_spec(CommandModel::LoadMusic { filename: f }),
                encode_spec(CommandModel::PlayMusic { filename: f, loops: LOOP_FOREVER }),
                encode_spec(CommandModel::PauseMusic),
                encode_spec(CommandModel::ResumeMusic),
                encode_spec(CommandModel::StopMusic),
            ];
            let slot = load_slot(s.music, f);
            let (s2, effects) = run(s, packets);
            effects == seq![
                Effect::LoadMusic { filename: f, slot },
                Effect::PlayMusic { slot, loops: LOOP_FOREVER },
                Effect::PauseMusic,
                Effect::ResumeMusic,
                Effect::HaltMusic,
            ] && s2.state == MusicState::Stopped && s2.music == bind(s.music, f)
        }),
{
    let c0 = CommandModel::LoadMusic { filename: f };
    let c1 = CommandModel::PlayMusic { filename: f, loops: LOOP_FOREVER };
    let c2 = CommandModel::PauseMusic;
    let c3 = CommandModel::ResumeMusic;
    let c4 = CommandModel::StopMusic;
    lemma_round_trip(c0);
    lemma_round_trip(c1);
    lemma_round_trip(c2);
    lemma_round_trip(c3);
    lemma_round_trip(c4);
    lemma_bind(s.music, f, f);
    let p = seq![encode_spec(c0), encode_spec(c1), encode_spec(c2), encode_spec(c3), encode_spec(c4)];
    let slot = load_slot(s.music, f);
    let s1 = BackendModel { music: bind(s.music, f), ..s };
    let sp = BackendModel { state: MusicState::Playing, ..s1 };
    let sq = BackendModel { state: MusicState::Paused, ..s1 };
    let ss = BackendModel { state: MusicState::Stopped, ..s1 };
    assert(p.drop_last().drop_last().drop_last().drop_last().drop_last() =~= Seq::<
        Seq<u8>,
    >::empty());
    assert(p.take(1).drop_last() =~= Seq::<Seq<u8>>::empty());
    assert(run(s, Seq::<Seq<u8>>::empty()) == (s, Seq::<Effect>::empty()));
    assert(p.take(1).last() == encode_spec(c0));
    assert(step_spec(s, encode_spec(c0)) == (s1, Effect::LoadMusic { filename: f, slot }));
    assert(run(s, p.take(1)).1 =~= seq![Effect::LoadMusic { filename: f, slot }]);
    assert(p.take(1) =~= p.drop_last().drop_last().drop_last().drop_last());
    assert(p.take(2) =~= p.drop_last().drop_last().drop_last());
    assert(p.take(3) =~= p.drop_last().drop_last());
    assert(p.take(4) =~= p.drop_last());
    assert(p.take(2).drop_last() =~= p.take(1));
    assert(p.take(3).drop_last() =~= p.take(2));
    assert(p.take(4).drop_last() =~= p.take(3));
    assert(run(s, p.take(1)).0 == s1);
    assert(run(s, p.take(2)).0 == sp);
    assert(run(s, p.take(3)).0 == sq);
    assert(run(s, p.take(4)).0 == sp);
    assert(run(s, p).0 == ss);
    assert(run(s, p).1 =~= seq![
        Effect::LoadMusic { filename: f, slot },
        Effect::PlayMusic { slot, loops: LOOP_FOREVER },
        Effect::PauseMusic,
        Effect::ResumeMusic,
        Effect::HaltMusic,
    ]);
}

} // verus!
