//! Ports by the physical UART number of the CH348L.
//!
//! The numbers in `/dev/ttyCH9344USB0..7` follow the order of enumeration and
//! have nothing to do with the board's connectors. A port is therefore found by
//! its physical UART number, from one listing taken before any port is opened: a
//! port that is already open cannot be asked for its number any more.
use vstd::prelude::*;
use vstd::string::*;

use crate::hal::error::Error;
use crate::text::{decimal, decimal_text, join_text, joined, views};

pub mod uart;

verus! {

/// A port of the CH348 and its physical UART number.
#[derive(Debug, Clone)]
pub struct Ch348Port {
    pub path: String,
    pub uart_index: u16,
}

/// Whether the ports are in ascending order of UART number.
pub open spec fn ascending(ports: Seq<Ch348Port>) -> bool {
    forall|i: int, j: int|
        0 <= i <= j < ports.len() ==> ports[i].uart_index <= ports[j].uart_index
}

/// The ports with the given UART number, in their order.
pub open spec fn with_index(ports: Seq<Ch348Port>, index: u16) -> Seq<Ch348Port> {
    ports.filter(|p: Ch348Port| p.uart_index == index)
}

/// Whether `sorted` holds the ports in ascending order, ports of one number
/// staying in the order in which they came.
pub open spec fn sorted_from(sorted: Seq<Ch348Port>, ports: Seq<Ch348Port>) -> bool {
    &&& ascending(sorted)
    &&& forall|index: u16| #[trigger] with_index(sorted, index) == with_index(ports, index)
}

/// The place of the first port with the given UART number.
pub open spec fn first_with(ports: Seq<Ch348Port>, index: u16, i: int) -> bool {
    &&& 0 <= i < ports.len()
    &&& ports[i].uart_index == index
    &&& forall|j: int| 0 <= j < i ==> ports[j].uart_index != index
}

/// `number=path`, as the error names a port.
pub open spec fn port_text(port: Ch348Port) -> Seq<char> {
    decimal(port.uart_index as nat) + "="@ + port.path@
}

/// What the error says when no port has the wanted number.
pub open spec fn missing_text(ports: Seq<Ch348Port>, index: u16) -> Seq<char> {
    "UART"@ + decimal(index as nat) + " が見つかりません（見つかったのは "@ + joined(
        ports.map_values(|p: Ch348Port| port_text(p)),
        ", "@,
    ) + "）"@
}

/// What the error says when the wanted port is not there: that there is no
/// board, or which ports there are.
pub open spec fn absent_text(ports: Seq<Ch348Port>, index: u16) -> Seq<char> {
    if ports.len() == 0 {
        "CH348 のポートが 1 本も見つかりません（基板の USB は挿さっていますか）"@
    } else {
        missing_text(ports, index)
    }
}

/// Whether an error reports a failed discovery in these words.
pub open spec fn reports(e: Error, text: Seq<char>) -> bool {
    e matches Error::Discovery(t) && t@ == text
}

/// The ports of one listing.
#[derive(Debug, Clone)]
pub struct PortMap {
    ports: Vec<Ch348Port>,
}

impl PortMap {
    /// The ports in their order.
    pub closed spec fn view(self) -> Seq<Ch348Port> {
        self.ports@
    }

    /// The map of a listing of the ports that are plugged in, or the error that
    /// the listing ended in.
    pub fn discover(listing: Result<Vec<Ch348Port>, String>) -> (r: Result<PortMap, Error>)
        ensures
            match listing {
                Ok(ports) => r is Ok && sorted_from(r->Ok_0@, ports@),
                Err(e) => r is Err && reports(
                    r->Err_0,
                    "CH348 のポート探索に失敗しました: "@ + e@,
                ),
            },
    {
        match listing {
            Ok(ports) => Ok(PortMap::from_ports(ports)),
            Err(e) => Err(
                Error::Discovery("CH348 のポート探索に失敗しました: ".to_owned().concat(e.as_str())),
            ),
        }
    }

    /// The map of a listing taken earlier.
    pub fn from_ports(ports: Vec<Ch348Port>) -> (r: PortMap)
        ensures
            sorted_from(r@, ports@),
    {
        let ghost given = ports@;
        let mut rest = ports;
        let mut sorted: Vec<Ch348Port> = Vec::new();
        proof {
            assert forall|index: u16| #[trigger] with_index(sorted@, index) + with_index(rest@, index)
                == with_index(given, index) by {
                lemma_filter_of_empty(index);
                assert(Seq::<Ch348Port>::empty() + with_index(rest@, index) =~= with_index(rest@, index));
            }
        }
        while rest.len() > 0
            invariant
                ascending(sorted@),
                forall|index: u16| #[trigger] with_index(sorted@, index) + with_index(rest@, index)
                    == with_index(given, index),
            decreases rest.len(),
        {
            let ghost left = rest@;
            let ghost before = sorted@;
            let port = rest.remove(0);
            let mut at: usize = sorted.len();
            while at > 0 && sorted[at - 1].uart_index > port.uart_index
                invariant
                    at <= sorted.len(),
                    sorted@ == before,
                    ascending(before),
                    forall|j: int| at <= j < before.len() ==> before[j].uart_index > port.uart_index,
                decreases at,
            {
                at = at - 1;
            }
            sorted.insert(at, port);
            proof {
                assert(left =~= seq![port] + rest@);
                assert(forall|j: int| 0 <= j < at ==> before[j].uart_index <= port.uart_index);
                assert forall|index: u16| #[trigger] with_index(sorted@, index) + with_index(
                    rest@,
                    index,
                ) == with_index(given, index) by {
                    lemma_insert_filters(before, at as int, port, index);
                    lemma_filter_of_first(port, rest@, index);
                    let one: Seq<Ch348Port> = if port.uart_index == index {
                        seq![port]
                    } else {
                        Seq::empty()
                    };
                    assert(with_index(before, index) + with_index(left, index) == with_index(
                        given,
                        index,
                    ));
                    assert(with_index(before, index) + one + with_index(rest@, index)
                        =~= with_index(before, index) + (one + with_index(rest@, index)));
                }
            }
        }
        proof {
            assert forall|index: u16| #[trigger] with_index(sorted@, index) == with_index(given, index) by {
                lemma_filter_of_empty(index);
                assert(rest@ =~= Seq::<Ch348Port>::empty());
                assert(with_index(sorted@, index) + Seq::<Ch348Port>::empty() =~= with_index(
                    sorted@,
                    index,
                ));
            }
        }
        PortMap { ports: sorted }
    }

    pub fn ports(&self) -> (r: &[Ch348Port])
        ensures
            r@ == self@,
    {
        self.ports.as_slice()
    }

    /// The path of the port with the physical UART number `index`.
    pub fn path_for(&self, index: u16) -> (r: Result<String, Error>)
        ensures
            match r {
                Ok(path) => exists|i: int| #[trigger]
                    first_with(self@, index, i) && path@ == self@[i].path@,
                Err(e) => (forall|i: int| 0 <= i < self@.len() ==> self@[i].uart_index != index)
                    && reports(e, absent_text(self@, index)),
            },
    {
        if self.ports.len() == 0 {
            return Err(
                Error::Discovery(
                    "CH348 のポートが 1 本も見つかりません（基板の USB は挿さっていますか）".to_owned(),
                ),
            );
        }
        let mut seen: Vec<String> = Vec::new();
        let mut i: usize = 0;
        while i < self.ports.len()
            invariant
                i <= self.ports.len(),
                seen.len() == i,
                forall|j: int| 0 <= j < i ==> self.ports@[j].uart_index != index,
                forall|j: int| 0 <= j < i ==> (#[trigger] seen@[j])@ == port_text(self.ports@[j]),
            decreases self.ports.len() - i,
        {
            let port = &self.ports[i];
            if port.uart_index == index {
                assert(first_with(self@, index, i as int));
                return Ok(port.path.clone());
            }
            seen.push(decimal_text(port.uart_index as u64).concat("=").concat(port.path.as_str()));
            i = i + 1;
        }
        let list = join_text(&seen, ", ");
        proof {
            assert(views(seen@) =~= self@.map_values(|p: Ch348Port| port_text(p)));
        }
        Err(
            Error::Discovery(
                "UART".to_owned().concat(decimal_text(index as u64).as_str()).concat(
                    " が見つかりません（見つかったのは ",
                ).concat(list.as_str()).concat("）"),
            ),
        )
    }
}

impl Default for PortMap {
    fn default() -> (r: Self)
        ensures
            r@.len() == 0,
    {
        PortMap { ports: Vec::new() }
    }
}

/// The ports of a listing in ascending order of UART number.
pub fn list_ports(listing: Result<Vec<Ch348Port>, String>) -> (r: Result<Vec<Ch348Port>, Error>)
    ensures
        match listing {
            Ok(ports) => r is Ok && sorted_from(r->Ok_0@, ports@),
            Err(e) => r is Err && reports(
                r->Err_0,
                "CH348 のポート探索に失敗しました: "@ + e@,
            ),
        },
{
    match PortMap::discover(listing) {
        Ok(map) => Ok(map.ports),
        Err(e) => Err(e),
    }
}

/// The path of the port with the physical UART number `index` in a fresh listing.
pub fn find_by_uart_index(index: u16, listing: Result<Vec<Ch348Port>, String>) -> (r: Result<
    String,
    Error,
>)
    ensures
        match (listing, r) {
            (Ok(ports), Ok(path)) => exists|i: int| #[trigger]
                first_with(ports@, index, i) && path@ == ports@[i].path@,
            (Ok(ports), Err(e)) => (forall|i: int|
                0 <= i < ports@.len() ==> ports@[i].uart_index != index) && exists|
                sorted: Seq<Ch348Port>,
            |
                #[trigger] sorted_from(sorted, ports@) && reports(e, absent_text(sorted, index)),
            (Err(e), _) => r is Err && reports(
                r->Err_0,
                "CH348 のポート探索に失敗しました: "@ + e@,
            ),
        },
{
    let map = match PortMap::discover(listing) {
        Ok(map) => map,
        Err(e) => return Err(e),
    };
    let r = map.path_for(index);
    proof {
        lemma_first_is_kept(map@, listing->Ok_0@, index);
    }
    r
}

/// Sorting keeps the first port of each number.
proof fn lemma_first_is_kept(sorted: Seq<Ch348Port>, ports: Seq<Ch348Port>, index: u16)
    requires
        sorted_from(sorted, ports),
    ensures
        (forall|i: int| 0 <= i < sorted.len() ==> sorted[i].uart_index != index) <==> (forall|
            i: int,
        |
            0 <= i < ports.len() ==> ports[i].uart_index != index),
        forall|i: int, j: int| #[trigger]
            first_with(sorted, index, i) && #[trigger] first_with(ports, index, j) ==> sorted[i]
                == ports[j],
        (exists|i: int| first_with(sorted, index, i)) <==> (exists|i: int|
            first_with(ports, index, i)),
{
    lemma_head_of_filter(sorted, index);
    lemma_head_of_filter(ports, index);
}

/// The first port of a number heads the ports of that number.
proof fn lemma_head_of_filter(ports: Seq<Ch348Port>, index: u16)
    ensures
        with_index(ports, index).len() == 0 <==> (forall|i: int|
            0 <= i < ports.len() ==> ports[i].uart_index != index),
        forall|i: int| #[trigger]
            first_with(ports, index, i) ==> with_index(ports, index).len() > 0
                && with_index(ports, index)[0] == ports[i],
        with_index(ports, index).len() > 0 ==> exists|i: int| first_with(ports, index, i),
    decreases ports.len(),
{
    if ports.len() == 0 {
        lemma_filter_of_empty(index);
        assert(ports =~= Seq::<Ch348Port>::empty());
    } else {
        let rest = ports.skip(1);
        assert(ports =~= seq![ports[0]] + rest);
        lemma_filter_of_first(ports[0], rest, index);
        lemma_head_of_filter(rest, index);
        if ports[0].uart_index == index {
            assert(first_with(ports, index, 0));
        } else {
            assert(with_index(ports, index) =~= with_index(rest, index));
            assert forall|i: int| #[trigger] first_with(ports, index, i) implies with_index(
                ports,
                index,
            ).len() > 0 && with_index(ports, index)[0] == ports[i] by {
                assert forall|j: int| 0 <= j < i - 1 implies rest[j].uart_index != index by {
                    assert(ports[j + 1].uart_index != index);
                }
                assert(first_with(rest, index, i - 1));
            }
            assert forall|i: int| 0 <= i < rest.len() implies rest[i] == ports[i + 1] by {}
            if with_index(rest, index).len() > 0 {
                let i = choose|i: int| first_with(rest, index, i);
                assert forall|j: int| 0 <= j < i + 1 implies ports[j].uart_index != index by {
                    if j > 0 {
                        assert(rest[j - 1].uart_index != index);
                    }
                }
                assert(first_with(ports, index, i + 1));
            } else {
                assert forall|i: int| 0 <= i < ports.len() implies ports[i].uart_index != index by {
                    if i > 0 {
                        assert(rest[i - 1].uart_index != index);
                    }
                }
            }
        }
    }
}

proof fn lemma_filter_of_empty(index: u16)
    ensures
        with_index(Seq::empty(), index) == Seq::<Ch348Port>::empty(),
{
    reveal(Seq::filter);
}

proof fn lemma_filter_of_first(port: Ch348Port, rest: Seq<Ch348Port>, index: u16)
    ensures
        with_index(seq![port] + rest, index) == (if port.uart_index == index {
            seq![port]
        } else {
            Seq::<Ch348Port>::empty()
        }) + with_index(rest, index),
{
    let keep = |p: Ch348Port| p.uart_index == index;
    Seq::filter_distributes_over_add(seq![port], rest, keep);
    reveal_with_fuel(Seq::filter, 2);
    assert(seq![port].drop_last() =~= Seq::<Ch348Port>::empty());
    assert(seq![port].filter(keep) =~= if keep(port) { seq![port] } else { Seq::empty() });
}

/// A port inserted behind all that are no larger joins the end of its number.
proof fn lemma_insert_filters(ports: Seq<Ch348Port>, at: int, port: Ch348Port, index: u16)
    requires
        0 <= at <= ports.len(),
        forall|j: int| at <= j < ports.len() ==> ports[j].uart_index > port.uart_index,
    ensures
        with_index(ports.insert(at, port), index) == with_index(ports, index) + (if port.uart_index
            == index {
            seq![port]
        } else {
            Seq::<Ch348Port>::empty()
        }),
{
    let keep = |p: Ch348Port| p.uart_index == index;
    let front = ports.take(at);
    let back = ports.skip(at);
    assert(ports =~= front + back);
    assert(ports.insert(at, port) =~= front + (seq![port] + back));
    Seq::filter_distributes_over_add(front, back, keep);
    Seq::filter_distributes_over_add(front, seq![port] + back, keep);
    lemma_filter_of_first(port, back, index);
    if port.uart_index == index {
        assert forall|j: int| 0 <= j < back.len() implies back[j].uart_index != index by {
            assert(ports[at + j].uart_index > port.uart_index);
        }
        lemma_head_of_filter(back, index);
        assert(with_index(back, index) =~= Seq::<Ch348Port>::empty());
    }
    assert(with_index(ports.insert(at, port), index) =~= with_index(ports, index) + (if port.uart_index
        == index {
        seq![port]
    } else {
        Seq::<Ch348Port>::empty()
    }));
}

} // verus!
