use std::sync::{Arc, Mutex};

use merkle_sync::{
    Cell, CellContext, CellDataBuilder, CellPromise, CellRefsBuilder, Error, ExtCell,
    ExtCellParts, Promise,
};

/// What a context was asked to finalize.
#[derive(Clone, Debug, PartialEq, Eq)]
struct Request {
    is_exotic: bool,
    data: Vec<u8>,
    bit_len: u16,
    refs: Vec<Cell>,
}

/// A context that keeps a record of its requests, names each cell by a
/// digest of its parts, and refuses the payloads it was told to refuse.
struct Recorder {
    requests: Mutex<Vec<Request>>,
    refused: Vec<(Vec<u8>, Error)>,
}

impl Recorder {
    fn new() -> Recorder {
        Recorder { requests: Mutex::new(Vec::new()), refused: Vec::new() }
    }

    fn refusing(data: &[u8], error: Error) -> Recorder {
        Recorder { requests: Mutex::new(Vec::new()), refused: vec![(data.to_vec(), error)] }
    }

    fn requests(&self) -> Vec<Request> {
        self.requests.lock().unwrap().clone()
    }
}

fn digest(request: &Request) -> Cell {
    let mut bytes = vec![u8::from(request.is_exotic)];
    bytes.extend_from_slice(&request.bit_len.to_be_bytes());
    bytes.extend_from_slice(&request.data);
    for child in &request.refs {
        bytes.extend_from_slice(child.repr_hash());
    }
    let mut hash = [0u8; 32];
    let mut state: u64 = 0xcbf2_9ce4_8422_2325;
    for (i, byte) in bytes.iter().enumerate() {
        state = (state ^ u64::from(*byte)).wrapping_mul(0x0000_0100_0000_01b3);
        hash[i % 32] ^= state.to_be_bytes()[i % 8];
    }
    hash[31] ^= bytes.len() as u8;
    Cell::from_repr_hash(hash)
}

impl CellContext for Recorder {
    fn finalize_cell(
        &self,
        is_exotic: bool,
        data: &CellDataBuilder,
        refs: &CellRefsBuilder,
    ) -> Result<Cell, Error> {
        let request = Request {
            is_exotic,
            data: data.data.clone(),
            bit_len: data.bit_len,
            refs: (0..refs.len()).map(|i| refs.get(i).unwrap()).collect(),
        };
        self.requests.lock().unwrap().push(request.clone());
        for (data, error) in &self.refused {
            if *data == request.data {
                return Err(*error);
            }
        }
        Ok(digest(&request))
    }
}

fn cell(n: u8) -> Cell {
    Cell::from_repr_hash([n; 32])
}

fn partial(data: &[u8], refs: Vec<ExtCell>) -> ExtCell {
    ExtCell::Partial(Arc::new(ExtCellParts {
        data: CellDataBuilder { data: data.to_vec(), bit_len: 8 * data.len() as u16 },
        is_exotic: false,
        refs,
    }))
}

fn deferred(value: Result<ExtCell, Error>) -> ExtCell {
    let promise = Promise::new();
    let handle = CellPromise::new(promise.clone());
    promise.set(value);
    ExtCell::Deferred(handle)
}

fn chain(hops: usize, end: ExtCell) -> ExtCell {
    let mut cell = end;
    for _ in 0..hops {
        cell = deferred(Ok(cell));
    }
    cell
}

fn request(data: &[u8], refs: Vec<Cell>) -> Request {
    Request { is_exotic: false, data: data.to_vec(), bit_len: 8 * data.len() as u16, refs }
}

#[test]
fn an_ordinary_cell_resolves_to_itself() {
    let context = Recorder::new();
    assert_eq!(ExtCell::Ordinary(cell(3)).resolve(&context), Ok(cell(3)));
    assert_eq!(context.requests(), Vec::new());
}

#[test]
fn a_partial_cell_without_children_is_finalized_once() {
    let context = Recorder::new();
    let out = partial(&[7, 7], Vec::new()).resolve(&context);
    assert_eq!(out, Ok(digest(&request(&[7, 7], Vec::new()))));
    assert_eq!(context.requests(), vec![request(&[7, 7], Vec::new())]);
}

#[test]
fn the_flag_and_the_payload_reach_the_context() {
    let context = Recorder::new();
    let parts = ExtCellParts {
        data: CellDataBuilder { data: vec![0xf0, 0x80], bit_len: 9 },
        is_exotic: true,
        refs: vec![ExtCell::Ordinary(cell(1))],
    };
    let expected =
        Request { is_exotic: true, data: vec![0xf0, 0x80], bit_len: 9, refs: vec![cell(1)] };
    assert_eq!(ExtCell::Partial(Arc::new(parts)).resolve(&context), Ok(digest(&expected)));
    assert_eq!(context.requests(), vec![expected]);
}

#[test]
fn children_of_every_kind_keep_their_order() {
    let context = Recorder::new();
    let inner = request(&[2], vec![cell(9)]);
    let node = partial(
        &[1],
        vec![
            ExtCell::Ordinary(cell(5)),
            partial(&[2], vec![ExtCell::Ordinary(cell(9))]),
            deferred(Ok(ExtCell::Ordinary(cell(6)))),
        ],
    );
    let outer = request(&[1], vec![cell(5), digest(&inner), cell(6)]);
    assert_eq!(node.resolve(&context), Ok(digest(&outer)));
    assert_eq!(context.requests(), vec![inner, outer]);
}

#[test]
fn children_are_resolved_from_left_to_right() {
    let context = Recorder::new();
    let node = partial(
        &[0],
        vec![partial(&[1], Vec::new()), partial(&[2], Vec::new()), partial(&[3], Vec::new())],
    );
    let children: Vec<Request> = (1..=3u8).map(|n| request(&[n], Vec::new())).collect();
    let outer = request(&[0], children.iter().map(digest).collect());
    assert_eq!(node.resolve(&context), Ok(digest(&outer)));
    let mut expected = children;
    expected.push(outer);
    assert_eq!(context.requests(), expected);
}

#[test]
fn a_chain_of_promises_resolves_as_its_end() {
    for hops in 0..=6 {
        let context = Recorder::new();
        let direct = partial(&[4], vec![ExtCell::Ordinary(cell(1))]).resolve(&context);
        let context = Recorder::new();
        let end = partial(&[4], vec![ExtCell::Ordinary(cell(1))]);
        assert_eq!(chain(hops, end).resolve(&context), direct);
        assert_eq!(context.requests(), vec![request(&[4], vec![cell(1)])]);
    }
}

#[test]
fn a_chain_of_promises_ends_in_an_ordinary_cell() {
    let context = Recorder::new();
    for hops in 0..=6 {
        assert_eq!(chain(hops, ExtCell::Ordinary(cell(8))).resolve(&context), Ok(cell(8)));
    }
    assert_eq!(context.requests(), Vec::new());
}

#[test]
fn a_failed_promise_fails_the_resolution() {
    let context = Recorder::new();
    assert_eq!(deferred(Err(Error::InvalidCell)).resolve(&context), Err(Error::InvalidCell));
    let failed = chain(3, deferred(Err(Error::DepthOverflow)));
    assert_eq!(failed.resolve(&context), Err(Error::DepthOverflow));
    assert_eq!(context.requests(), Vec::new());
}

#[test]
fn a_failing_child_fails_the_parent_before_it_is_built() {
    let context = Recorder::new();
    let node = partial(
        &[1],
        vec![
            partial(&[2], Vec::new()),
            deferred(Err(Error::InvalidData)),
            partial(&[3], Vec::new()),
        ],
    );
    assert_eq!(node.resolve(&context), Err(Error::InvalidData));
    assert_eq!(context.requests(), vec![request(&[2], Vec::new())]);
}

#[test]
fn the_first_failure_is_the_one_reported() {
    let context = Recorder::new();
    let node = partial(
        &[1],
        vec![deferred(Err(Error::DepthOverflow)), deferred(Err(Error::InvalidCell))],
    );
    assert_eq!(node.resolve(&context), Err(Error::DepthOverflow));
    assert_eq!(context.requests(), Vec::new());
}

#[test]
fn a_refusal_of_the_context_is_handed_on() {
    let context = Recorder::refusing(&[2], Error::InvalidCell);
    let node = partial(&[1], vec![ExtCell::Ordinary(cell(1)), partial(&[2], Vec::new())]);
    assert_eq!(node.resolve(&context), Err(Error::InvalidCell));
    assert_eq!(context.requests(), vec![request(&[2], Vec::new())]);

    let context = Recorder::refusing(&[1], Error::DepthOverflow);
    let node = partial(&[1], vec![partial(&[2], Vec::new())]);
    assert_eq!(node.resolve(&context), Err(Error::DepthOverflow));
    let inner = request(&[2], Vec::new());
    let outer = request(&[1], vec![digest(&inner)]);
    assert_eq!(context.requests(), vec![inner, outer]);
}

#[test]
fn four_children_fit_in_a_cell() {
    let context = Recorder::new();
    let children: Vec<ExtCell> = (1..=4u8).map(|n| ExtCell::Ordinary(cell(n))).collect();
    let expected = request(&[1], (1..=4u8).map(cell).collect());
    assert_eq!(partial(&[1], children).resolve(&context), Ok(digest(&expected)));
}

#[test]
fn a_fifth_child_overflows_the_cell() {
    let context = Recorder::new();
    let children: Vec<ExtCell> = (1..=5u8).map(|n| ExtCell::Ordinary(cell(n))).collect();
    assert_eq!(partial(&[1], children).resolve(&context), Err(Error::CellOverflow));
    assert_eq!(context.requests(), Vec::new());
}

#[test]
fn a_fifth_child_is_resolved_before_it_overflows() {
    let context = Recorder::new();
    let mut children: Vec<ExtCell> = (1..=4u8).map(|n| ExtCell::Ordinary(cell(n))).collect();
    children.push(deferred(Err(Error::InvalidData)));
    assert_eq!(partial(&[1], children).resolve(&context), Err(Error::InvalidData));

    let mut children: Vec<ExtCell> = (1..=4u8).map(|n| ExtCell::Ordinary(cell(n))).collect();
    children.push(partial(&[5], Vec::new()));
    children.push(deferred(Err(Error::InvalidData)));
    assert_eq!(partial(&[1], children).resolve(&context), Err(Error::CellOverflow));
    assert_eq!(context.requests(), vec![request(&[5], Vec::new())]);
}

#[test]
fn shared_parts_resolve_each_time_they_occur() {
    let context = Recorder::new();
    let shared = partial(&[2], Vec::new());
    let node = partial(&[1], vec![shared.clone(), shared.clone()]);
    let inner = request(&[2], Vec::new());
    let outer = request(&[1], vec![digest(&inner), digest(&inner)]);
    assert_eq!(node.clone().resolve(&context), Ok(digest(&outer)));
    assert_eq!(node.resolve(&context), Ok(digest(&outer)));
    assert_eq!(context.requests().len(), 6);
}

#[test]
fn a_handle_shares_the_promise_it_was_made_of() {
    let promise: Promise<Result<ExtCell, Error>> = Promise::new();
    let handle = CellPromise::new(promise.clone());
    let other = handle.clone();
    promise.set(Ok(ExtCell::Ordinary(cell(2))));
    for shared in [&handle, &other] {
        match shared.promise().wait_cloned() {
            Ok(ExtCell::Ordinary(found)) => assert_eq!(found, cell(2)),
            _ => panic!("the promise was set to a finalized cell"),
        }
    }
    let context = Recorder::new();
    assert_eq!(ExtCell::Deferred(other).resolve(&context), Ok(cell(2)));
}

#[test]
fn a_promise_set_through_its_handle_resolves() {
    let handle = CellPromise::new(Promise::new());
    let node = partial(&[1], vec![ExtCell::Deferred(handle.clone())]);
    handle.promise().set(Ok(partial(&[2], Vec::new())));
    let context = Recorder::new();
    let inner = request(&[2], Vec::new());
    let outer = request(&[1], vec![digest(&inner)]);
    assert_eq!(node.resolve(&context), Ok(digest(&outer)));
}

#[test]
fn a_context_can_be_a_trait_object() {
    let recorder = Recorder::new();
    let context: &(dyn CellContext + Send + Sync) = &recorder;
    let later = deferred(Ok(partial(&[2], Vec::new())));
    let node = partial(&[1], vec![ExtCell::Ordinary(cell(1)), later]);
    let inner = request(&[2], Vec::new());
    let outer = request(&[1], vec![cell(1), digest(&inner)]);
    assert_eq!(node.resolve(context), Ok(digest(&outer)));
    assert_eq!(recorder.requests(), vec![inner, outer]);
}

fn unset() -> ExtCell {
    ExtCell::Deferred(CellPromise::new(Promise::new()))
}

#[test]
fn given_values_stand_for_the_waits() {
    let context = Recorder::new();
    let awaited = vec![Ok(unset()), Ok(ExtCell::Ordinary(cell(4)))];
    assert_eq!(unset().resolve_given(&context, &awaited), Some(Ok(cell(4))));
    assert_eq!(context.requests(), Vec::new());
}

#[test]
fn given_values_are_taken_in_the_order_of_the_waits() {
    let context = Recorder::new();
    let node = partial(&[1], vec![unset(), ExtCell::Ordinary(cell(2)), unset()]);
    let awaited = vec![
        Ok(unset()),
        Ok(ExtCell::Ordinary(cell(1))),
        Ok(partial(&[3], vec![unset()])),
        Ok(ExtCell::Ordinary(cell(9))),
    ];
    let inner = request(&[3], vec![cell(9)]);
    let outer = request(&[1], vec![cell(1), cell(2), digest(&inner)]);
    assert_eq!(node.resolve_given(&context, &awaited), Some(Ok(digest(&outer))));
    assert_eq!(context.requests(), vec![inner, outer]);
}

#[test]
fn a_resolution_stops_where_the_given_values_end() {
    let context = Recorder::new();
    assert_eq!(unset().resolve_given(&context, &Vec::new()), None);
    assert_eq!(unset().resolve_given(&context, &vec![Ok(unset())]), None);
    let node = partial(&[1], vec![partial(&[2], Vec::new()), unset()]);
    assert_eq!(node.resolve_given(&context, &Vec::new()), None);
    assert_eq!(context.requests(), vec![request(&[2], Vec::new())]);
}

#[test]
fn given_values_that_are_not_awaited_are_left_alone() {
    let context = Recorder::new();
    let awaited = vec![Ok(ExtCell::Ordinary(cell(1))), Err(Error::InvalidCell)];
    assert_eq!(unset().resolve_given(&context, &awaited), Some(Ok(cell(1))));
    assert_eq!(ExtCell::Ordinary(cell(7)).resolve_given(&context, &awaited), Some(Ok(cell(7))));
    assert_eq!(awaited.len(), 2);
}

#[test]
fn a_given_failure_ends_the_resolution() {
    let context = Recorder::new();
    let awaited = vec![Ok(unset()), Err(Error::InvalidData), Ok(ExtCell::Ordinary(cell(1)))];
    assert_eq!(unset().resolve_given(&context, &awaited), Some(Err(Error::InvalidData)));
    let node = partial(&[1], vec![unset(), unset()]);
    assert_eq!(node.resolve_given(&context, &awaited), Some(Err(Error::InvalidData)));
    assert_eq!(context.requests(), Vec::new());
}

#[test]
fn given_values_and_set_promises_resolve_alike() {
    let waited = Recorder::new();
    let first = deferred(Ok(partial(&[2], Vec::new())));
    let node = partial(&[1], vec![first, chain(2, ExtCell::Ordinary(cell(3)))]);
    let out = node.resolve(&waited);
    let replayed = Recorder::new();
    let node = partial(&[1], vec![unset(), unset()]);
    let awaited = vec![
        Ok(partial(&[2], Vec::new())),
        Ok(unset()),
        Ok(ExtCell::Ordinary(cell(3))),
    ];
    assert_eq!(node.resolve_given(&replayed, &awaited), Some(out));
    assert_eq!(waited.requests(), replayed.requests());
}
