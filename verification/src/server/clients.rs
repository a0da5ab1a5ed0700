use vstd::prelude::*;
use vstd::string::*;

use crate::comms::protocol::{is_valid_nickname, law_valid_nickname_trimmed, valid_nickname};
use crate::text::{str_trim, trimmed};

verus! {

/// Identifies a connected client by the text of its peer address.
pub struct ClientId {
    pub address: String,
}

impl View for ClientId {
    type V = Seq<char>;

    open spec fn view(&self) -> Seq<char> {
        self.address@
    }
}

impl ClientId {
    /// The client at `address`.
    pub fn new(address: String) -> (id: ClientId)
        ensures
            id@ == address@,
    {
        ClientId { address }
    }

    /// The peer address of the client.
    pub fn address(&self) -> (a: &str)
        ensures
            a@ == self@,
    {
        self.address.as_str()
    }
}

/// What the registry knows of one client: its address, the nickname it chose,
/// and the writer on which it receives broadcasts.
pub struct Member<W> {
    pub address: Seq<char>,
    pub nickname: Option<Seq<char>>,
    pub writer: W,
}

struct Client<W> {
    address: String,
    nickname: Option<String>,
    writer: W,
}

impl<W> Client<W> {
    spec fn member(&self) -> Member<W> {
        Member {
            address: self.address@,
            nickname: match self.nickname {
                Some(n) => Some(n@),
                None => None,
            },
            writer: self.writer,
        }
    }
}

/// `members` without those at `address`, in the same order.
pub open spec fn without_address<W>(members: Seq<Member<W>>, address: Seq<char>) -> Seq<Member<W>>
    decreases members.len(),
{
    if members.len() == 0 {
        Seq::empty()
    } else {
        let rest = without_address(members.drop_last(), address);
        if members.last().address == address {
            rest
        } else {
            rest.push(members.last())
        }
    }
}

/// Some member of `members` is at `address`.
pub open spec fn has_address<W>(members: Seq<Member<W>>, address: Seq<char>) -> bool {
    exists|i: int| 0 <= i < members.len() && #[trigger] members[i].address == address
}

/// `members` where each one at `address` goes by `nickname`.
pub open spec fn with_nickname<W>(
    members: Seq<Member<W>>,
    address: Seq<char>,
    nickname: Seq<char>,
) -> Seq<Member<W>> {
    Seq::new(
        members.len(),
        |i: int|
            if members[i].address == address {
                Member {
                    address: members[i].address,
                    nickname: Some(nickname),
                    writer: members[i].writer,
                }
            } else {
                members[i]
            },
    )
}

/// The name under which the client at `address` is shown: the nickname of the
/// first member at that address when it has one, the address otherwise.
pub open spec fn shown_name<W>(members: Seq<Member<W>>, address: Seq<char>) -> Seq<char>
    decreases members.len(),
{
    if members.len() == 0 {
        address
    } else if members[0].address == address {
        match members[0].nickname {
            Some(n) => n,
            None => address,
        }
    } else {
        shown_name(members.drop_first(), address)
    }
}

/// `members` without those whose delivery failed, in the same order.
pub open spec fn delivered_members<W>(members: Seq<Member<W>>, delivered: Seq<bool>) -> Seq<
    Member<W>,
>
    decreases members.len(),
{
    if members.len() == 0 {
        Seq::empty()
    } else {
        let rest = delivered_members(members.drop_last(), delivered.drop_last());
        if delivered.last() {
            rest.push(members.last())
        } else {
            rest
        }
    }
}

/// The writers of `members`, in order.
pub open spec fn writers_of<W>(members: Seq<Member<W>>) -> Seq<W> {
    members.map_values(|m: Member<W>| m.writer)
}

/// Skipping members at other addresses leaves the shown name unchanged.
proof fn lemma_shown_name_skip<W>(members: Seq<Member<W>>, address: Seq<char>, i: int)
    requires
        0 <= i <= members.len(),
        forall|j: int| 0 <= j < i ==> #[trigger] members[j].address != address,
    ensures
        shown_name(members, address) == shown_name(members.skip(i), address),
    decreases i,
{
    if i == 0 {
        assert(members.skip(0) =~= members);
    } else {
        lemma_shown_name_skip(members, address, i - 1);
        let tail = members.skip(i - 1);
        assert(tail[0] == members[i - 1]);
        assert(tail.drop_first() =~= members.skip(i));
    }
}

/// The connected clients, in the order in which they registered, each with the
/// writer on which it receives broadcasts.
pub struct ClientRegistry<W> {
    clients: Vec<Client<W>>,
}

impl<W> View for ClientRegistry<W> {
    type V = Seq<Member<W>>;

    closed spec fn view(&self) -> Seq<Member<W>> {
        self.clients@.map_values(|c: Client<W>| c.member())
    }
}

impl<W> ClientRegistry<W> {
    /// A registry with no client.
    pub fn new() -> (registry: Self)
        ensures
            registry@ == Seq::<Member<W>>::empty(),
    {
        ClientRegistry { clients: Vec::new() }
    }

    /// The number of registered clients.
    pub fn len(&self) -> (n: usize)
        ensures
            n == self@.len(),
    {
        self.clients.len()
    }

    /// Whether no client is registered.
    pub fn is_empty(&self) -> (empty: bool)
        ensures
            empty == (self@.len() == 0),
    {
        self.len() == 0
    }

    /// Adds the client at `id`, with no nickname, after those already there.
    pub fn register(&mut self, id: ClientId, writer: W)
        ensures
            final(self)@ == old(self)@.push(
                Member { address: id@, nickname: None, writer: writer },
            ),
    {
        let c = Client { address: id.address, nickname: None, writer };
        self.clients.push(c);
        proof {
            assert(final(self)@ =~= old(self)@.push(c.member()));
        }
    }

    /// Drops every client at `id`; the others keep their order.
    pub fn remove(&mut self, id: &ClientId)
        ensures
            final(self)@ == without_address(old(self)@, id@),
    {
        let mut old_clients: Vec<Client<W>> = Vec::new();
        std::mem::swap(&mut old_clients, &mut self.clients);
        let ghost before = old_clients@.map_values(|c: Client<W>| c.member());
        let mut kept: Vec<Client<W>> = Vec::new();
        for c in it: old_clients
            invariant
                before == it.seq().map_values(|c: Client<W>| c.member()),
                kept@.map_values(|c: Client<W>| c.member()) == without_address(
                    before.take(it.index() as int),
                    id@,
                ),
        {
            proof {
                let k = it.index() as int;
                assert(before.take(k + 1).drop_last() =~= before.take(k));
            }
            if c.address != id.address {
                kept.push(c);
            }
            proof {
                assert(kept@.map_values(|c: Client<W>| c.member()) =~= without_address(
                    before.take(it.index() as int + 1),
                    id@,
                ));
            }
        }
        proof {
            assert(before.take(before.len() as int) =~= before);
        }
        self.clients = kept;
    }

    /// Gives the clients at `id` the nickname `nickname`, trimmed, when it is a
    /// valid nickname. Tells whether some client took it.
    pub fn set_nickname(&mut self, id: &ClientId, nickname: &str) -> (renamed: bool)
        ensures
            renamed == (valid_nickname(nickname@) && has_address(old(self)@, id@)),
            final(self)@ == if valid_nickname(nickname@) {
                with_nickname(old(self)@, id@, trimmed(nickname@))
            } else {
                old(self)@
            },
    {
        if !is_valid_nickname(nickname) {
            return false;
        }
        let name = str_trim(nickname);
        let mut old_clients: Vec<Client<W>> = Vec::new();
        std::mem::swap(&mut old_clients, &mut self.clients);
        let ghost before = old_clients@.map_values(|c: Client<W>| c.member());
        let ghost target = with_nickname(before, id@, name@);
        let mut updated: Vec<Client<W>> = Vec::new();
        let mut found = false;
        for c in it: old_clients
            invariant
                before == it.seq().map_values(|c: Client<W>| c.member()),
                target == with_nickname(before, id@, name@),
                updated@.map_values(|c: Client<W>| c.member()) == target.take(it.index() as int),
                found == has_address(before.take(it.index() as int), id@),
        {
            let ghost k = it.index() as int;
            let ghost prev = updated@;
            proof {
                assert(k < before.len());
                assert(target.len() == before.len());
                assert(prev.map_values(|c: Client<W>| c.member()).len() == k);
                assert(prev.len() == k);
            }
            let Client { address, nickname: current, writer } = c;
            proof {
                assert(before[k].address == address@);
                assert(before[k].writer == writer);
            }
            if address == id.address {
                let fresh = Client { address, nickname: Some(String::from_str(name)), writer };
                proof {
                    assert(fresh.member() == target[k]);
                }
                updated.push(fresh);
                found = true;
                proof {
                    assert(before.take(k + 1)[k].address == id@);
                }
            } else {
                let same = Client { address, nickname: current, writer };
                proof {
                    assert(same.member() == before[k]);
                    assert(same.member() == target[k]);
                }
                updated.push(same);
                proof {
                    if has_address(before.take(k + 1), id@) {
                        let j = choose|j: int|
                            0 <= j < k + 1 && #[trigger] before.take(k + 1)[j].address == id@;
                        assert(before.take(k)[j].address == id@);
                    }
                }
            }
            proof {
                assert(updated@ == prev.push(updated@[k]));
                assert(updated@.map_values(|c: Client<W>| c.member()) =~= prev.map_values(
                    |c: Client<W>| c.member(),
                ).push(updated@[k].member()));
                assert(updated@.map_values(|c: Client<W>| c.member()) =~= target.take(k + 1));
                if has_address(before.take(k), id@) {
                    let j = choose|j: int| 0 <= j < k && #[trigger] before.take(k)[j].address == id@;
                    assert(before.take(k + 1)[j].address == id@);
                }
            }
        }
        proof {
            assert(before.take(before.len() as int) =~= before);
            assert(target.take(target.len() as int) =~= target);
        }
        self.clients = updated;
        found
    }

    /// The name under which the client at `id` is shown.
    pub fn display_name(&self, id: &ClientId) -> (name: String)
        ensures
            name@ == shown_name(self@, id@),
    {
        let n = self.clients.len();
        let mut i: usize = 0;
        while i < n
            invariant
                n == self.clients@.len(),
                i <= n,
                forall|j: int| 0 <= j < i ==> #[trigger] self@[j].address != id@,
            decreases n - i,
        {
            let c = &self.clients[i];
            if c.address == id.address {
                proof {
                    lemma_shown_name_skip(self@, id@, i as int);
                    assert(self@.skip(i as int)[0] == self@[i as int]);
                }
                return match &c.nickname {
                    Some(nick) => nick.clone(),
                    None => c.address.clone(),
                };
            }
            i = i + 1;
        }
        proof {
            lemma_shown_name_skip(self@, id@, n as int);
        }
        id.address.clone()
    }

    /// The writer of the client at position `i`.
    pub fn writer(&self, i: usize) -> (w: &W)
        requires
            i < self@.len(),
        ensures
            *w == self@[i as int].writer,
    {
        &self.clients[i].writer
    }

    /// Keeps, in order, the clients whose entry in `delivered` is `true`; it
    /// holds one entry per client, by position.
    pub fn retain_delivered(&mut self, delivered: &Vec<bool>)
        requires
            delivered@.len() == old(self)@.len(),
        ensures
            final(self)@ == delivered_members(old(self)@, delivered@),
    {
        let mut old_clients: Vec<Client<W>> = Vec::new();
        std::mem::swap(&mut old_clients, &mut self.clients);
        let ghost before = old_clients@.map_values(|c: Client<W>| c.member());
        let mut kept: Vec<Client<W>> = Vec::new();
        let count = delivered.len();
        let mut i: usize = 0;
        for c in it: old_clients
            invariant
                before == it.seq().map_values(|c: Client<W>| c.member()),
                delivered@.len() == before.len(),
                count == delivered@.len(),
                i == it.index(),
                kept@.map_values(|c: Client<W>| c.member()) == delivered_members(
                    before.take(i as int),
                    delivered@.take(i as int),
                ),
        {
            proof {
                let k = i as int;
                assert(before.take(k + 1).drop_last() =~= before.take(k));
                assert(delivered@.take(k + 1).drop_last() =~= delivered@.take(k));
            }
            assert(i < count);
            if delivered[i] {
                kept.push(c);
            }
            proof {
                assert(kept@.map_values(|c: Client<W>| c.member()) =~= delivered_members(
                    before.take(i as int + 1),
                    delivered@.take(i as int + 1),
                ));
            }
            i = i + 1;
        }
        proof {
            assert(before.take(before.len() as int) =~= before);
            assert(delivered@.take(delivered@.len() as int) =~= delivered@);
        }
        self.clients = kept;
    }

    /// Drops every client and hands back their writers, in order.
    pub fn disconnect_all(&mut self) -> (writers: Vec<W>)
        ensures
            final(self)@ == Seq::<Member<W>>::empty(),
            writers@ == writers_of(old(self)@),
            writers@.len() == old(self)@.len(),
            forall|i: int| 0 <= i < writers@.len() ==> writers@[i] == old(self)@[i].writer,
    {
        let mut old_clients: Vec<Client<W>> = Vec::new();
        std::mem::swap(&mut old_clients, &mut self.clients);
        let ghost before = old_clients@.map_values(|c: Client<W>| c.member());
        let mut writers: Vec<W> = Vec::new();
        for c in it: old_clients
            invariant
                before == it.seq().map_values(|c: Client<W>| c.member()),
                writers@ == writers_of(before.take(it.index() as int)),
        {
            proof {
                let k = it.index() as int;
                assert(writers_of(before.take(k + 1)) =~= writers_of(before.take(k)).push(
                    before[k].writer,
                ));
            }
            writers.push(c.writer);
        }
        proof {
            assert(before.take(before.len() as int) =~= before);
        }
        proof {
            assert(self.clients@.map_values(|c: Client<W>| c.member()) =~= Seq::<Member<W>>::empty());
            law_writers(before);
        }
        writers
    }
}

/// The name a member is shown under: its nickname, or else its address.
pub open spec fn member_name<W>(m: Member<W>) -> Seq<char> {
    match m.nickname {
        Some(n) => n,
        None => m.address,
    }
}

/// Every nickname held by `members` is a valid nickname.
pub open spec fn nicknames_valid<W>(members: Seq<Member<W>>) -> bool {
    forall|i: int|
        0 <= i < members.len() ==> (#[trigger] members[i].nickname matches Some(n) ==> valid_nickname(n))
}

/// A client that joins at the end changes no shown name already settled, and
/// an address not seen before is shown under the name of the newcomer.
pub proof fn law_shown_name_after_join<W>(members: Seq<Member<W>>, newcomer: Member<W>, address: Seq<char>)
    ensures
        shown_name(members.push(newcomer), address) == if has_address(members, address) {
            shown_name(members, address)
        } else if newcomer.address == address {
            member_name(newcomer)
        } else {
            address
        },
    decreases members.len(),
{
    let grown = members.push(newcomer);
    if members.len() == 0 {
        assert(grown.drop_first() =~= Seq::<Member<W>>::empty());
        assert(grown[0] == newcomer);
        assert(!has_address(members, address));
        assert(grown.len() == 1);
        if newcomer.address != address {
            assert(shown_name(grown, address) == shown_name(grown.drop_first(), address));
        }
    } else {
        assert(grown.drop_first() =~= members.drop_first().push(newcomer));
        assert(grown[0] == members[0]);
        law_shown_name_after_join(members.drop_first(), newcomer, address);
        if members[0].address == address {
            assert(has_address(members, address));
        }
        if has_address(members, address) && members[0].address != address {
            let j = choose|j: int| 0 <= j < members.len() && #[trigger] members[j].address == address;
            assert(members.drop_first()[j - 1].address == address);
        }
        if has_address(members.drop_first(), address) {
            let j = choose|j: int|
                0 <= j < members.len() - 1 && #[trigger] members.drop_first()[j].address == address;
            assert(members[j + 1].address == address);
        }
    }
}

/// An address held by no member is shown as itself.
pub proof fn law_shown_name_of_stranger<W>(members: Seq<Member<W>>, address: Seq<char>)
    requires
        !has_address(members, address),
    ensures
        shown_name(members, address) == address,
    decreases members.len(),
{
    if members.len() > 0 {
        assert(members[0].address != address);
        if has_address(members.drop_first(), address) {
            let j = choose|j: int|
                0 <= j < members.len() - 1 && #[trigger] members.drop_first()[j].address == address;
            assert(members[j + 1].address == address);
        }
        law_shown_name_of_stranger(members.drop_first(), address);
    }
}

/// Removing the clients at an address leaves none there, removing them again
/// changes nothing, and every other client keeps its place and its shown name.
pub proof fn law_remove<W>(members: Seq<Member<W>>, address: Seq<char>, other: Seq<char>)
    ensures
        !has_address(without_address(members, address), address),
        without_address(without_address(members, address), address) == without_address(
            members,
            address,
        ),
        other != address ==> has_address(without_address(members, address), other) == has_address(
            members,
            other,
        ),
        other != address ==> shown_name(without_address(members, address), other) == shown_name(
            members,
            other,
        ),
    decreases members.len(),
{
    if members.len() == 0 {
        assert(without_address(members, address) =~= Seq::<Member<W>>::empty());
    } else {
        let front = members.drop_last();
        let last = members.last();
        law_remove(front, address, other);
        law_shown_name_after_join(front, last, other);
        let kept = without_address(front, address);
        law_shown_name_after_join(kept, last, other);
        if !has_address(front, other) {
            law_shown_name_of_stranger(front, other);
        }
        assert(members =~= front.push(last));
        if has_address(members, other) && last.address != other {
            let j = choose|j: int| 0 <= j < members.len() && #[trigger] members[j].address == other;
            assert(front[j].address == other);
        }
        if has_address(front, other) {
            let j = choose|j: int| 0 <= j < front.len() && #[trigger] front[j].address == other;
            assert(members[j].address == other);
        }
        if last.address != address {
            let grown = kept.push(last);
            assert(grown.drop_last() =~= kept);
            if has_address(grown, address) {
                let j = choose|j: int| 0 <= j < grown.len() && #[trigger] grown[j].address == address;
                assert(j < kept.len());
                assert(kept[j].address == address);
            }
            if has_address(grown, other) && last.address != other {
                let j = choose|j: int| 0 <= j < grown.len() && #[trigger] grown[j].address == other;
                assert(kept[j].address == other);
            }
            if has_address(kept, other) {
                let j = choose|j: int| 0 <= j < kept.len() && #[trigger] kept[j].address == other;
                assert(grown[j].address == other);
            }
        }
    }
}

/// After a rename, the renamed client is shown under its new nickname and
/// every other client keeps its shown name.
pub proof fn law_rename<W>(members: Seq<Member<W>>, address: Seq<char>, nickname: Seq<char>, other: Seq<char>)
    ensures
        has_address(members, address) ==> shown_name(with_nickname(members, address, nickname), address)
            == nickname,
        other != address ==> shown_name(with_nickname(members, address, nickname), other)
            == shown_name(members, other),
        with_nickname(members, address, nickname).len() == members.len(),
    decreases members.len(),
{
    let renamed = with_nickname(members, address, nickname);
    if members.len() > 0 {
        assert(renamed.drop_first() =~= with_nickname(members.drop_first(), address, nickname));
        law_rename(members.drop_first(), address, nickname, other);
        if has_address(members, address) && members[0].address != address {
            let j = choose|j: int| 0 <= j < members.len() && #[trigger] members[j].address == address;
            assert(members.drop_first()[j - 1].address == address);
        }
    }
}

/// When every client was delivered to, all stay; when none was, none stays.
pub proof fn law_delivery<W>(members: Seq<Member<W>>, delivered: Seq<bool>)
    requires
        delivered.len() == members.len(),
    ensures
        (forall|i: int| 0 <= i < delivered.len() ==> #[trigger] delivered[i]) ==> delivered_members(
            members,
            delivered,
        ) == members,
        (forall|i: int| 0 <= i < delivered.len() ==> !#[trigger] delivered[i]) ==> delivered_members(
            members,
            delivered,
        ).len() == 0,
    decreases members.len(),
{
    if members.len() > 0 {
        law_delivery(members.drop_last(), delivered.drop_last());
        if forall|i: int| 0 <= i < delivered.len() ==> #[trigger] delivered[i] {
            assert(forall|i: int|
                0 <= i < delivered.drop_last().len() ==> #[trigger] delivered.drop_last()[i] == delivered[i]);
            assert(delivered[delivered.len() - 1]);
            assert(members.drop_last().push(members.last()) =~= members);
        }
        if forall|i: int| 0 <= i < delivered.len() ==> !#[trigger] delivered[i] {
            assert(forall|i: int|
                0 <= i < delivered.drop_last().len() ==> #[trigger] delivered.drop_last()[i] == delivered[i]);
            assert(!delivered[delivered.len() - 1]);
        }
    }
}

/// Every nickname a registry holds is valid, in every state its operations
/// reach: none at the start, none given on joining, only trimmed valid names
/// on renaming, and removals keep some of the members there were.
pub proof fn law_nicknames_stay_valid<W>(
    members: Seq<Member<W>>,
    address: Seq<char>,
    nickname: Seq<char>,
    writer: W,
    delivered: Seq<bool>,
)
    ensures
        nicknames_valid(Seq::<Member<W>>::empty()),
        nicknames_valid(members) ==> nicknames_valid(
            members.push(Member { address: address, nickname: None, writer: writer }),
        ),
        nicknames_valid(members) && valid_nickname(nickname) ==> nicknames_valid(
            with_nickname(members, address, trimmed(nickname)),
        ),
        nicknames_valid(members) ==> nicknames_valid(without_address(members, address)),
        nicknames_valid(members) && delivered.len() == members.len() ==> nicknames_valid(
            delivered_members(members, delivered),
        ),
{
    let joined = members.push(Member { address: address, nickname: None, writer: writer });
    if nicknames_valid(members) {
        assert forall|i: int| 0 <= i < joined.len() implies (#[trigger] joined[i].nickname matches Some(
            n,
        ) ==> valid_nickname(n)) by {
            if i < members.len() {
                assert(joined[i] == members[i]);
            }
        }
        if valid_nickname(nickname) {
            law_valid_nickname_trimmed(nickname);
        }
        lemma_kept_members_valid(members, address);
        if delivered.len() == members.len() {
            lemma_delivered_members_valid(members, delivered);
        }
    }
}

proof fn lemma_kept_members_valid<W>(members: Seq<Member<W>>, address: Seq<char>)
    requires
        nicknames_valid(members),
    ensures
        nicknames_valid(without_address(members, address)),
    decreases members.len(),
{
    if members.len() > 0 {
        let front = members.drop_last();
        assert(forall|i: int| 0 <= i < front.len() ==> #[trigger] front[i] == members[i]);
        lemma_kept_members_valid(front, address);
        let kept = without_address(front, address);
        let grown = kept.push(members.last());
        assert(members.last() == members[members.len() - 1]);
        assert forall|i: int| 0 <= i < grown.len() implies (#[trigger] grown[i].nickname matches Some(
            n,
        ) ==> valid_nickname(n)) by {
            if i < kept.len() {
                assert(grown[i] == kept[i]);
            }
        }
    }
}

proof fn lemma_delivered_members_valid<W>(members: Seq<Member<W>>, delivered: Seq<bool>)
    requires
        nicknames_valid(members),
        delivered.len() == members.len(),
    ensures
        nicknames_valid(delivered_members(members, delivered)),
    decreases members.len(),
{
    if members.len() > 0 {
        let front = members.drop_last();
        assert(forall|i: int| 0 <= i < front.len() ==> #[trigger] front[i] == members[i]);
        lemma_delivered_members_valid(front, delivered.drop_last());
        let kept = delivered_members(front, delivered.drop_last());
        let grown = kept.push(members.last());
        assert(members.last() == members[members.len() - 1]);
        assert forall|i: int| 0 <= i < grown.len() implies (#[trigger] grown[i].nickname matches Some(
            n,
        ) ==> valid_nickname(n)) by {
            if i < kept.len() {
                assert(grown[i] == kept[i]);
            }
        }
    }
}

/// The writers handed back are those of every member, one per member, in
/// order, whatever their nicknames.
pub proof fn law_writers<W>(members: Seq<Member<W>>)
    ensures
        writers_of(members).len() == members.len(),
        forall|i: int| 0 <= i < members.len() ==> #[trigger] writers_of(members)[i] == members[i].writer,
{
}

/// Pruning decides each client on its own delivery alone: a lone client stays
/// exactly when its delivery succeeded, and pruning two runs of clients one
/// after the other gives the two pruned runs one after the other.
pub proof fn law_delivery_by_position<W>(
    first: Seq<Member<W>>,
    first_delivered: Seq<bool>,
    second: Seq<Member<W>>,
    second_delivered: Seq<bool>,
    client: Member<W>,
    reached: bool,
)
    requires
        first_delivered.len() == first.len(),
        second_delivered.len() == second.len(),
    ensures
        delivered_members(seq![client], seq![reached]) == if reached {
            seq![client]
        } else {
            Seq::<Member<W>>::empty()
        },
        delivered_members(first + second, first_delivered + second_delivered) == delivered_members(
            first,
            first_delivered,
        ) + delivered_members(second, second_delivered),
    decreases second.len(),
{
    let one = seq![client];
    assert(one.drop_last() =~= Seq::<Member<W>>::empty());
    assert(one.last() == client);
    assert(seq![reached].drop_last() =~= Seq::<bool>::empty());
    assert(seq![reached].last() == reached);
    assert(delivered_members(Seq::<Member<W>>::empty(), Seq::<bool>::empty()) =~= Seq::<Member<W>>::empty());
    assert(Seq::<Member<W>>::empty().push(client) =~= one);
    let joined = first + second;
    let joined_delivered = first_delivered + second_delivered;
    if second.len() == 0 {
        assert(joined =~= first);
        assert(joined_delivered =~= first_delivered);
        assert(delivered_members(second, second_delivered) =~= Seq::<Member<W>>::empty());
        assert(delivered_members(first, first_delivered) + Seq::<Member<W>>::empty()
            =~= delivered_members(first, first_delivered));
    } else {
        law_delivery_by_position(
            first,
            first_delivered,
            second.drop_last(),
            second_delivered.drop_last(),
            client,
            reached,
        );
        assert(joined.drop_last() =~= first + second.drop_last());
        assert(joined_delivered.drop_last() =~= first_delivered + second_delivered.drop_last());
        assert(joined.last() == second.last());
        assert(joined_delivered.last() == second_delivered.last());
        let front = delivered_members(first, first_delivered);
        let back = delivered_members(second.drop_last(), second_delivered.drop_last());
        if second_delivered.last() {
            assert(front + back.push(second.last()) =~= (front + back).push(second.last()));
        }
    }
}

/// Removal decides each client on its own address alone: a lone client stays
/// exactly when it is at another address, and removing from two runs of
/// clients one after the other gives the two shortened runs one after the
/// other.
pub proof fn law_remove_by_position<W>(
    first: Seq<Member<W>>,
    second: Seq<Member<W>>,
    client: Member<W>,
    address: Seq<char>,
)
    ensures
        without_address(seq![client], address) == if client.address == address {
            Seq::<Member<W>>::empty()
        } else {
            seq![client]
        },
        without_address(first + second, address) == without_address(first, address)
            + without_address(second, address),
    decreases second.len(),
{
    let one = seq![client];
    assert(one.drop_last() =~= Seq::<Member<W>>::empty());
    assert(one.last() == client);
    assert(without_address(Seq::<Member<W>>::empty(), address) =~= Seq::<Member<W>>::empty());
    assert(Seq::<Member<W>>::empty().push(client) =~= one);
    let joined = first + second;
    if second.len() == 0 {
        assert(joined =~= first);
        assert(without_address(second, address) =~= Seq::<Member<W>>::empty());
        assert(without_address(first, address) + Seq::<Member<W>>::empty() =~= without_address(
            first,
            address,
        ));
    } else {
        law_remove_by_position(first, second.drop_last(), client, address);
        assert(joined.drop_last() =~= first + second.drop_last());
        assert(joined.last() == second.last());
        let front = without_address(first, address);
        let back = without_address(second.drop_last(), address);
        if second.last().address != address {
            assert(front + back.push(second.last()) =~= (front + back).push(second.last()));
        }
    }
}

/// A rename touches only the clients at the renamed address: each of them
/// keeps its address and writer and takes the new nickname, and every other
/// client is left as it was.
pub proof fn law_rename_by_position<W>(members: Seq<Member<W>>, address: Seq<char>, nickname: Seq<char>)
    ensures
        with_nickname(members, address, nickname).len() == members.len(),
        forall|i: int|
            0 <= i < members.len() && members[i].address == address ==> {
                &&& (#[trigger] with_nickname(members, address, nickname)[i]).address == address
                &&& with_nickname(members, address, nickname)[i].nickname == Some(nickname)
                &&& with_nickname(members, address, nickname)[i].writer == members[i].writer
            },
        forall|i: int|
            0 <= i < members.len() && members[i].address != address ==> #[trigger] with_nickname(
                members,
                address,
                nickname,
            )[i] == members[i],
{
}

/// A client is shown under the name of the first client registered at its
/// address: that client's nickname when it has one, its address otherwise.
pub proof fn law_shown_name_first<W>(members: Seq<Member<W>>, address: Seq<char>, i: int)
    requires
        0 <= i < members.len(),
        members[i].address == address,
        forall|j: int| 0 <= j < i ==> #[trigger] members[j].address != address,
    ensures
        shown_name(members, address) == match members[i].nickname {
            Some(n) => n,
            None => address,
        },
{
    lemma_shown_name_skip(members, address, i);
    assert(members.skip(i)[0] == members[i]);
}

} // verus!
