//! The room registry: a single map from room code to room, with creation,
//! lookup, removal and idle eviction. The network edge wraps one registry
//! in its process-wide lock; every operation here runs while that lock is
//! held, which is what serializes all commands of a room.

use crate::connection::{HostToken, RoomCode};
use crate::game::Category;
use crate::room::{Room, RoomView};
use crate::UnixMs;
use vstd::prelude::*;

verus! {

/// Mathematical image of a [`RoomRegistry`].
#[verifier::ext_equal]
pub struct RegistryView {
    pub rooms: Seq<RoomView>,
    pub room_ttl: UnixMs,
}

/// The rooms of one server process, keyed by their codes, plus the idle
/// time-to-live after which the sweep evicts a room.
pub struct RoomRegistry {
    pub rooms: Vec<Room>,
    pub room_ttl: UnixMs,
}

/// The images of a list of rooms.
pub open spec fn rooms_view(rooms: Seq<Room>) -> Seq<RoomView> {
    rooms.map_values(|r: Room| r@)
}

impl View for RoomRegistry {
    type V = RegistryView;

    open spec fn view(&self) -> RegistryView {
        RegistryView { rooms: rooms_view(self.rooms@), room_ttl: self.room_ttl }
    }
}

impl RegistryView {
    /// Validity of a registry: codes are unique — the list is a map — and
    /// every room is well formed.
    pub open spec fn wf(self) -> bool {
        &&& forall|i: int, j: int|
            0 <= i < j < self.rooms.len() ==> (#[trigger] self.rooms[i]).code != (
            #[trigger] self.rooms[j]).code
        &&& forall|i: int| 0 <= i < self.rooms.len() ==> (#[trigger] self.rooms[i]).wf()
    }
}

/// Least index at or after `i` of the room with the given code, if any.
pub open spec fn find_room_from(rooms: Seq<RoomView>, code: Seq<char>, i: int) -> Option<int>
    decreases rooms.len() - i,
{
    if i < 0 || i >= rooms.len() {
        None
    } else if rooms[i].code == code {
        Some(i)
    } else {
        find_room_from(rooms, code, i + 1)
    }
}

/// Least index of the room with the given code, if any.
pub open spec fn find_room(rooms: Seq<RoomView>, code: Seq<char>) -> Option<int> {
    find_room_from(rooms, code, 0)
}

/// What a hit of [`find_room_from`] means.
pub proof fn lemma_find_room_from(rooms: Seq<RoomView>, code: Seq<char>, i: int)
    requires
        0 <= i <= rooms.len(),
    ensures
        match find_room_from(rooms, code, i) {
            Some(j) => i <= j < rooms.len() && rooms[j].code == code && forall|k: int|
                i <= k < j ==> (#[trigger] rooms[k]).code != code,
            None => forall|k: int| i <= k < rooms.len() ==> (#[trigger] rooms[k]).code != code,
        },
    decreases rooms.len() - i,
{
    if i < rooms.len() && rooms[i].code != code {
        lemma_find_room_from(rooms, code, i + 1);
    }
}

/// The body of a room-creation request: optionally, the game's content.
pub struct CreateRoomRequest {
    pub categories: Option<Vec<Category>>,
}

/// What a room-creation request returns: the code players join by and the
/// secret that authenticates the host.
pub struct CreateRoomResponse {
    pub room_code: RoomCode,
    pub host_token: HostToken,
}

/// Whether a room was active recently enough, measured against the sweep's
/// time and the registry's time-to-live.
pub open spec fn live_pred(now_ms: UnixMs, ttl: UnixMs) -> spec_fn(RoomView) -> bool {
    |r: RoomView| r.last_activity >= now_ms - ttl
}

impl RoomRegistry {
    /// An empty registry with the default half-hour idle time-to-live.
    pub fn new() -> (r: Self)
        ensures
            r@ == (RegistryView { rooms: Seq::empty(), room_ttl: 1800000 }),
            r@.wf(),
    {
        let r = RoomRegistry { rooms: Vec::new(), room_ttl: 1800000 };
        proof {
            assert(r@ =~= (RegistryView { rooms: Seq::<RoomView>::empty(), room_ttl: 1800000 }));
        }
        r
    }

    /// An empty registry with the given idle time-to-live in milliseconds.
    pub fn with_ttl(ttl_ms: UnixMs) -> (r: Self)
        ensures
            r@ == (RegistryView { rooms: Seq::empty(), room_ttl: ttl_ms }),
            r@.wf(),
    {
        let r = RoomRegistry { rooms: Vec::new(), room_ttl: ttl_ms };
        proof {
            assert(r@ =~= (RegistryView { rooms: Seq::<RoomView>::empty(), room_ttl: ttl_ms }));
        }
        r
    }

    /// Least position of the room with this code, if any: the handle the
    /// edge uses to reach a room for one command.
    pub fn room_index(&self, code: &RoomCode) -> (r: Option<usize>)
        ensures
            match r {
                Some(i) => find_room(self@.rooms, code@) == Some(i as int),
                None => find_room(self@.rooms, code@) is None,
            },
    {
        let mut i: usize = 0;
        while i < self.rooms.len()
            invariant
                i <= self.rooms@.len(),
                find_room(self@.rooms, code@) == find_room_from(self@.rooms, code@, i as int),
            decreases self.rooms@.len() - i,
        {
            if self.rooms[i].code == *code {
                return Some(i);
            }
            i = i + 1;
        }
        None
    }

    /// Draws random codes until one collides with no existing room, giving
    /// up after a fixed number of tries (the code space dwarfs any real
    /// registry, so a collision streak that long does not happen in
    /// practice). On an empty registry no draw can collide, so the first
    /// one succeeds.
    fn fresh_code(&self) -> (r: Option<RoomCode>)
        ensures
            r matches Some(code) ==> find_room(self@.rooms, code@) is None,
            self@.rooms.len() == 0 ==> r is Some,
    {
        let mut attempts: u32 = 0;
        while attempts < 64
            invariant
                attempts > 0 ==> self@.rooms.len() > 0,
            decreases 64 - attempts,
        {
            let candidate = RoomCode::generate();
            match self.room_index(&candidate) {
                None => {
                    return Some(candidate);
                },
                Some(_) => {
                    proof {
                        lemma_find_room_from(self@.rooms, candidate@, 0);
                    }
                },
            }
            attempts = attempts + 1;
        }
        None
    }

    /// Creates a room under a freshly drawn code that collides with no
    /// existing one, with a fresh host secret and the given categories, and
    /// returns both so the creating client learns them. Fails — leaving the
    /// registry untouched — only if the random draw never finds a free
    /// code, which cannot happen while the registry is empty.
    #[verifier::loop_isolation(false)]
    pub fn create_room(&mut self, categories: Option<Vec<Category>>, now_ms: UnixMs) -> (r:
        Option<(RoomCode, HostToken)>)
        requires
            old(self)@.wf(),
        ensures
            final(self)@.wf(),
            final(self)@.room_ttl == old(self)@.room_ttl,
            old(self)@.rooms.len() == 0 ==> r is Some,
            r is None ==> final(self)@ == old(self)@,
            r matches Some((code, token)) ==> {
                &&& find_room(old(self)@.rooms, code@) is None
                &&& final(self)@.rooms.len() == old(self)@.rooms.len() + 1
                &&& final(self)@.rooms.last() == (RoomView {
                    code: code@,
                    host_token: token@,
                    state: crate::game::GameState::Start,
                    host: None::<crate::host::HostEntry>,
                    players: Seq::empty(),
                    categories: match categories {
                        Some(cats) => cats@.map_values(|c: Category| c@),
                        None => Seq::empty(),
                    },
                    current_question: None::<(usize, usize)>,
                    current_buzzer: None::<crate::player::PlayerId>,
                    last_activity: now_ms,
                    winner: None::<crate::player::PlayerId>,
                })
                &&& forall|k: int|
                    0 <= k < old(self)@.rooms.len() ==> final(self)@.rooms[k] == old(
                        self,
                    )@.rooms[k]
            },
    {
        let code = match self.fresh_code() {
            Some(c) => c,
            None => {
                proof {
                    assert(self@ =~= old(self)@);
                }
                return None;
            },
        };
        let host_token = HostToken::generate();
        let mut room = Room::new(code.clone(), host_token, now_ms);
        let ghost fresh_base = room@;
        if let Some(cats) = categories {
            room.categories = cats;
            proof {
                assert(room@ =~= (RoomView { categories: room@.categories, ..fresh_base }));
            }
        }
        let ghost new_room = room@;
        self.rooms.push(room);
        proof {
            assert(self@.rooms =~= old(self)@.rooms.push(new_room));
            assert forall|i: int, j: int|
                0 <= i < j < self@.rooms.len() implies (#[trigger] self@.rooms[i]).code != (
            #[trigger] self@.rooms[j]).code by {
                if j == self@.rooms.len() - 1 {
                    lemma_find_room_from(old(self)@.rooms, code@, 0);
                } else {
                }
            }
        }
        Some((code, host_token))
    }

    /// Inserts a prebuilt room if its code is still free; says whether it
    /// went in.
    pub fn insert_room(&mut self, room: Room) -> (r: bool)
        requires
            old(self)@.wf(),
            room@.wf(),
        ensures
            final(self)@.wf(),
            final(self)@.room_ttl == old(self)@.room_ttl,
            match find_room(old(self)@.rooms, room@.code) {
                Some(_) => r == false && final(self)@ == old(self)@,
                None => r == true && final(self)@.rooms == old(self)@.rooms.push(room@),
            },
    {
        match self.room_index(&room.code) {
            Some(_) => {
                proof {
                    assert(self@ =~= old(self)@);
                }
                false
            },
            None => {
                let ghost new_room = room@;
                self.rooms.push(room);
                proof {
                    assert(self@.rooms =~= old(self)@.rooms.push(new_room));
                    lemma_find_room_from(old(self)@.rooms, new_room.code, 0);
                    assert forall|i: int, j: int|
                        0 <= i < j < self@.rooms.len() implies (#[trigger] self@.rooms[i]).code
                        != (#[trigger] self@.rooms[j]).code by {}
                }
                true
            },
        }
    }

    /// Removes the room with this code, if present; says whether one was.
    pub fn remove_room(&mut self, code: &RoomCode) -> (r: bool)
        requires
            old(self)@.wf(),
        ensures
            final(self)@.wf(),
            final(self)@.room_ttl == old(self)@.room_ttl,
            match find_room(old(self)@.rooms, code@) {
                Some(i) => r == true && final(self)@.rooms == old(self)@.rooms.remove(i),
                None => r == false && final(self)@ == old(self)@,
            },
    {
        match self.room_index(code) {
            Some(i) => {
                proof {
                    lemma_find_room_from(self@.rooms, code@, 0);
                }
                let _removed = self.rooms.remove(i);
                proof {
                    assert(self@.rooms =~= old(self)@.rooms.remove(i as int));
                    assert forall|a: int, b: int|
                        0 <= a < b < self@.rooms.len() implies (#[trigger] self@.rooms[a]).code
                        != (#[trigger] self@.rooms[b]).code by {
                        let i0 = i as int;
                        if a < i0 {
                            assert(self@.rooms[a] == old(self)@.rooms[a]);
                        } else {
                            assert(self@.rooms[a] == old(self)@.rooms[a + 1]);
                        }
                        if b < i0 {
                            assert(self@.rooms[b] == old(self)@.rooms[b]);
                        } else {
                            assert(self@.rooms[b] == old(self)@.rooms[b + 1]);
                        }
                    }
                }
                true
            },
            None => {
                proof {
                    assert(self@ =~= old(self)@);
                }
                false
            },
        }
    }

    /// Evicts every room whose `last_activity` lies strictly before
    /// `now_ms` minus the time-to-live; rooms touched since then stay.
    #[verifier::loop_isolation(false)]
    pub fn cleanup_inactive_rooms(&mut self, now_ms: UnixMs)
        requires
            old(self)@.wf(),
        ensures
            final(self)@.wf(),
            final(self)@.room_ttl == old(self)@.room_ttl,
            final(self)@.rooms == old(self)@.rooms.filter(
                live_pred(now_ms, old(self)@.room_ttl),
            ),
    {
        let threshold = now_ms.saturating_sub(self.room_ttl);
        let ghost orig = self@.rooms;
        let ghost pred = live_pred(now_ms, self.room_ttl);
        let mut kept: Vec<Room> = Vec::new();
        proof {
            reveal(Seq::filter);
            assert(orig.take(0).filter(pred) =~= Seq::<RoomView>::empty());
            assert(rooms_view(kept@) =~= Seq::<RoomView>::empty());
        }
        let ghost mut processed: int = 0;
        while self.rooms.len() > 0
            invariant
                0 <= processed <= orig.len(),
                self.rooms@.len() == orig.len() - processed,
                forall|k: int|
                    0 <= k < self.rooms@.len() ==> (#[trigger] self.rooms@[k])@ == orig[processed
                        + k],
                kept@.len() <= processed,
                self.room_ttl == old(self).room_ttl,
                rooms_view(kept@).len() == kept@.len(),
                rooms_view(kept@) == orig.take(processed).filter(pred),
            decreases self.rooms@.len(),
        {
            let ghost shrunk = self.rooms@;
            let room = self.rooms.remove(0);
            let ghost kept_views = rooms_view(kept@);
            proof {
                reveal(Seq::filter);
                assert(room@ == orig[processed]);
                assert forall|k: int|
                    0 <= k < self.rooms@.len() implies (#[trigger] self.rooms@[k])@ == orig[
                    processed + 1 + k] by {
                    assert(self.rooms@[k] == shrunk[k + 1]);
                }
                assert(orig.take(processed + 1).drop_last() =~= orig.take(processed));
                assert(orig.take(processed + 1).last() == orig[processed]);
            }
            if room.last_activity >= threshold {
                kept.push(room);
                proof {
                    reveal(Seq::filter);
                    assert(rooms_view(kept@) =~= kept_views.push(orig[processed]));
                    assert(pred(orig[processed]));
                    assert(rooms_view(kept@) =~= orig.take(processed + 1).filter(pred));
                }
            } else {
                proof {
                    reveal(Seq::filter);
                    assert(!pred(orig[processed]));
                    assert(rooms_view(kept@) =~= orig.take(processed + 1).filter(pred));
                }
            }
            proof {
                processed = processed + 1;
            }
        }
        self.rooms = kept;
        proof {
            reveal(Seq::filter);
            assert(orig.take(orig.len() as int) =~= orig);
            assert(self@.rooms == orig.filter(pred));
            lemma_filter_registry_wf(orig, pred);
            assert(self@ =~= (RegistryView {
                rooms: orig.filter(pred),
                room_ttl: old(self)@.room_ttl,
            }));
        }
    }
}

/// Filtering a registry's rooms keeps codes unique and rooms well formed:
/// every kept room came from the original list.
pub proof fn lemma_filter_registry_wf(s: Seq<RoomView>, pred: spec_fn(RoomView) -> bool)
    requires
        forall|i: int, j: int|
            0 <= i < j < s.len() ==> (#[trigger] s[i]).code != (#[trigger] s[j]).code,
        forall|i: int| 0 <= i < s.len() ==> (#[trigger] s[i]).wf(),
    ensures
        forall|i: int, j: int|
            0 <= i < j < s.filter(pred).len() ==> (#[trigger] s.filter(pred)[i]).code != (
            #[trigger] s.filter(pred)[j]).code,
        forall|i: int| 0 <= i < s.filter(pred).len() ==> (#[trigger] s.filter(pred)[i]).wf(),
    decreases s.len(),
{
    reveal(Seq::filter);
    if s.len() > 0 {
        let prefix = s.drop_last();
        assert forall|i: int, j: int|
            0 <= i < j < prefix.len() implies (#[trigger] prefix[i]).code != (
        #[trigger] prefix[j]).code by {
            assert(prefix[i] == s[i]);
            assert(prefix[j] == s[j]);
        }
        assert forall|i: int| 0 <= i < prefix.len() implies (#[trigger] prefix[i]).wf() by {
            assert(prefix[i] == s[i]);
        }
        lemma_filter_registry_wf(prefix, pred);
        let f = s.filter(pred);
        let fp = prefix.filter(pred);
        if pred(s.last()) {
            assert(f == fp.push(s.last()));
            assert forall|i: int, j: int|
                0 <= i < j < f.len() implies (#[trigger] f[i]).code != (#[trigger] f[j]).code by {
                if j < fp.len() {
                    assert(f[i] == fp[i]);
                    assert(f[j] == fp[j]);
                } else {
                    assert(f[i] == fp[i]);
                    assert(f[j] == s.last());
                    lemma_filter_membership(prefix, pred);
                    assert(prefix.contains(fp[i]));
                    let w = choose|w: int| 0 <= w < prefix.len() && prefix[w] == fp[i];
                    assert(s[w] == fp[i]);
                    assert(s[w].code != s[s.len() - 1].code);
                }
            }
            assert forall|i: int| 0 <= i < f.len() implies (#[trigger] f[i]).wf() by {
                if i < fp.len() {
                    assert(f[i] == fp[i]);
                } else {
                    assert(f[i] == s.last());
                    assert(s[s.len() - 1].wf());
                }
            }
        } else {
            assert(f == fp);
        }
    }
}

/// Every element a filter keeps came from the original sequence.
pub proof fn lemma_filter_membership<A>(s: Seq<A>, pred: spec_fn(A) -> bool)
    ensures
        forall|k: int|
            0 <= k < s.filter(pred).len() ==> s.contains(#[trigger] s.filter(pred)[k]),
    decreases s.len(),
{
    reveal(Seq::filter);
    if s.len() > 0 {
        let prefix = s.drop_last();
        lemma_filter_membership(prefix, pred);
        assert forall|k: int|
            0 <= k < s.filter(pred).len() implies s.contains(#[trigger] s.filter(pred)[k]) by {
            if k < prefix.filter(pred).len() {
                assert(prefix.contains(prefix.filter(pred)[k]));
                let w = choose|w: int| 0 <= w < prefix.len() && prefix[w] == prefix.filter(pred)[k];
                assert(s[w] == s.filter(pred)[k]);
            } else {
                assert(s[s.len() - 1] == s.filter(pred)[k]);
            }
        }
    }
}

} // verus!
