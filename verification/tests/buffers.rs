use l3engine::error::{BufError, MbufError, MemoryError};
use l3engine::mbuf::Mbuf;
use l3engine::mempool::Mempool;

fn pool(capacity: usize) -> Mempool {
    Mempool::new(0, "GLOBAL_MEMPOOL", capacity, 256, 32).unwrap()
}

#[test]
fn fresh_buffer_is_empty_with_default_headroom() {
    let mut mp = pool(4);
    let b = Mbuf::new(&mut mp).unwrap();
    assert_eq!(b.data_len(), 0);
    assert_eq!(b.pkt_len(), 0);
    assert_eq!(b.data_off(), 32);
    assert_eq!(b.buf_len(), 256);
    assert_eq!(b.tailroom(), 224);
    assert_eq!(mp.free_count(), 3);
    assert_eq!(mp.in_use(), 1);
}

#[test]
fn pool_exhaustion_gives_no_buf() {
    let mut mp = pool(1);
    let _b = Mbuf::new(&mut mp).unwrap();
    assert_eq!(Mbuf::new(&mut mp).err(), Some(MemoryError::NoBuf));
}

#[test]
fn extend_then_write_then_read_round_trip() {
    let mut mp = pool(2);
    let mut b = Mbuf::new(&mut mp).unwrap();
    let bytes = [1u8, 2, 3, 4, 5];
    assert_eq!(b.extend(0, bytes.len()), Ok(()));
    assert_eq!(b.write_data_slice(0, &bytes), Ok(bytes.to_vec()));
    assert_eq!(b.read_data_slice::<u8>(0, bytes.len()), Ok(bytes.to_vec()));
    assert_eq!(b.data_len(), 5);
}

#[test]
fn from_bytes_round_trip() {
    let mut mp = pool(2);
    let bytes = [9u8, 8, 7];
    let b = Mbuf::from_bytes(&bytes, &mut mp).unwrap();
    assert_eq!(b.data(), bytes.to_vec());
    assert_eq!(b.read_data_slice::<u8>(0, 3), Ok(bytes.to_vec()));
    assert_eq!(mp.free_count(), 1);
}

#[test]
fn from_bytes_of_nothing_is_not_resized_and_leaks_nothing() {
    let mut mp = pool(2);
    assert_eq!(
        Mbuf::from_bytes(&[], &mut mp).err(),
        Some(MbufError::Buf(BufError::NotResized))
    );
    assert_eq!(mp.free_count(), 2);
}

#[test]
fn extend_shifts_data_down_and_clears_the_gap() {
    let mut mp = pool(1);
    let mut b = Mbuf::from_bytes(&[1, 2, 3, 4], &mut mp).unwrap();
    assert_eq!(b.extend(2, 3), Ok(()));
    assert_eq!(b.data(), vec![1, 2, 0, 0, 0, 3, 4]);
}

#[test]
fn extend_beyond_data_is_bad_offset_and_changes_nothing() {
    let mut mp = pool(1);
    let mut b = Mbuf::from_bytes(&[1, 2, 3, 4], &mut mp).unwrap();
    assert_eq!(b.extend(5, 1), Err(BufError::BadOffset(5, 4)));
    assert_eq!(b.data(), vec![1, 2, 3, 4]);
}

#[test]
fn extend_beyond_tailroom_is_out_of_buffer_and_changes_nothing() {
    let mut mp = pool(1);
    let mut b = Mbuf::from_bytes(&[1, 2, 3, 4], &mut mp).unwrap();
    let room = b.tailroom();
    assert_eq!(room, 220);
    assert_eq!(b.extend(0, room + 1), Err(BufError::OutOfBuffer(221, 220)));
    assert_eq!(b.data(), vec![1, 2, 3, 4]);
    assert_eq!(b.extend(4, room), Ok(()));
    assert_eq!(b.tailroom(), 0);
}

#[test]
fn extend_by_nothing_is_not_resized() {
    let mut mp = pool(1);
    let mut b = Mbuf::from_bytes(&[1], &mut mp).unwrap();
    assert_eq!(b.extend(0, 0), Err(BufError::NotResized));
    assert_eq!(b.extend(1, 0), Err(BufError::NotResized));
}

#[test]
fn extend_beyond_data_is_bad_offset_whatever_the_length() {
    let mut mp = pool(1);
    let mut b = Mbuf::from_bytes(&[1, 2, 3, 4], &mut mp).unwrap();
    assert_eq!(b.extend(5, 0), Err(BufError::BadOffset(5, 4)));
    assert_eq!(b.extend(5, 1000), Err(BufError::BadOffset(5, 4)));
    assert_eq!(b.resize(9, 0), Err(BufError::BadOffset(9, 4)));
    assert_eq!(b.data(), vec![1, 2, 3, 4]);
    assert_eq!(b.data_len(), 4);
    assert_eq!(b.pkt_len(), 4);
    assert_eq!(b.data_off(), 32);
}

#[test]
fn shrink_moves_the_tail_up() {
    let mut mp = pool(1);
    let mut b = Mbuf::from_bytes(&[1, 2, 3, 4, 5], &mut mp).unwrap();
    assert_eq!(b.shrink(1, 2), Ok(()));
    assert_eq!(b.data(), vec![1, 4, 5]);
    assert_eq!(b.shrink(2, 2), Err(BufError::OutOfBuffer(2, 1)));
    assert_eq!(b.shrink(4, 1), Err(BufError::BadOffset(4, 3)));
    assert_eq!(b.shrink(0, 0), Err(BufError::NotResized));
    assert_eq!(b.shrink(4, 0), Err(BufError::BadOffset(4, 3)));
    assert_eq!(b.data(), vec![1, 4, 5]);
}

#[test]
fn resize_grows_and_shrinks() {
    let mut mp = pool(1);
    let mut b = Mbuf::from_bytes(&[1, 2, 3], &mut mp).unwrap();
    assert_eq!(b.resize(3, 2), Ok(()));
    assert_eq!(b.data(), vec![1, 2, 3, 0, 0]);
    assert_eq!(b.resize(0, -4), Ok(()));
    assert_eq!(b.data(), vec![0]);
    assert_eq!(b.resize(0, 0), Err(BufError::NotResized));
}

#[test]
fn truncate_drops_the_tail() {
    let mut mp = pool(1);
    let mut b = Mbuf::from_bytes(&[1, 2, 3], &mut mp).unwrap();
    assert_eq!(b.truncate(3), Err(BufError::NotResized));
    assert_eq!(b.truncate(1), Ok(()));
    assert_eq!(b.data(), vec![1]);
    assert_eq!(b.pkt_len(), 1);
}

#[test]
fn reads_are_bounds_checked() {
    let mut mp = pool(1);
    let b = Mbuf::from_bytes(&[1, 2, 3], &mut mp).unwrap();
    assert_eq!(b.read_data::<u8>(2), Ok(vec![3]));
    assert_eq!(b.read_data::<u8>(3), Err(BufError::BadOffset(3, 3)));
    assert_eq!(b.read_data::<[u8; 2]>(2), Err(BufError::OutOfBuffer(2, 1)));
    assert_eq!(b.read_data::<[u8; 2]>(1), Ok(vec![2, 3]));
    assert_eq!(b.read_data_slice::<[u8; 2]>(0, 2), Err(BufError::OutOfBuffer(4, 3)));
    assert_eq!(b.read_data::<()>(0), Ok(vec![]));
    assert_eq!(
        b.read_data_slice::<[u8; 16]>(1, usize::MAX / 2),
        Err(BufError::OutOfBuffer(usize::MAX, 2))
    );
    assert_eq!(b.read_data_slice::<[u8; 16]>(3, usize::MAX), Err(BufError::BadOffset(3, 3)));
}

#[test]
fn writes_need_the_range_to_be_data() {
    let mut mp = pool(1);
    let mut b = Mbuf::from_bytes(&[1, 2, 3], &mut mp).unwrap();
    assert_eq!(b.write_data_slice(2, &[7, 8]), Err(BufError::OutOfBuffer(2, 1)));
    // an offset beyond the data is a range that is not part of the data too
    assert_eq!(b.write_data_slice(4, &[7]), Err(BufError::OutOfBuffer(1, 0)));
    assert_eq!(b.write_data_slice(usize::MAX, &[7, 8]), Err(BufError::OutOfBuffer(2, 0)));
    assert_eq!(b.data(), vec![1, 2, 3]);
    assert_eq!(b.write_data_slice(1, &[7, 8]), Ok(vec![7, 8]));
    assert_eq!(b.data(), vec![1, 7, 8]);
}

#[test]
fn bulk_allocation_is_all_or_nothing() {
    let mut mp = pool(3);
    assert_eq!(mp.alloc_bulk(4).err(), Some(MemoryError::NoBuf));
    assert_eq!(mp.free_count(), 3);
    let bufs = mp.alloc_bulk(3).unwrap();
    assert_eq!(bufs.len(), 3);
    assert_eq!(mp.free_count(), 0);
    assert_eq!(mp.free_bulk(bufs).ok(), Some(3));
    assert_eq!(mp.free_count(), 3);
}

#[test]
fn pool_refuses_foreign_buffers() {
    let mut a = Mempool::new(1, "A", 2, 64, 0).unwrap();
    let mut b = Mempool::new(2, "B", 2, 64, 0).unwrap();
    let buf = a.alloc_buf().unwrap();
    assert_eq!(b.free(buf), Err(MemoryError::Invalid));
    assert_eq!(b.free_count(), 2);
    let own = b.alloc_buf().unwrap();
    assert_eq!(b.free(own), Ok(()));
    assert_eq!(a.in_use() + a.free_count(), a.capacity());
}

#[test]
fn pool_names_are_checked() {
    assert_eq!(Mempool::new(0, "bad\nname", 1, 64, 0).err(), Some(MemoryError::Invalid));
    assert_eq!(
        Mempool::new(0, "a-name-that-is-much-longer-than-thirty-two-bytes", 1, 64, 0).err(),
        Some(MemoryError::Invalid)
    );
    assert_eq!(Mempool::new(0, "ok", 0, 64, 0).err(), Some(MemoryError::Invalid));
    assert_eq!(Mempool::new(0, "ok", 1, 64, 65).err(), Some(MemoryError::Invalid));
    assert!(Mempool::new(0, "ok", 1, 64, 64).is_ok());
}

#[test]
fn free_bulk_groups_by_owning_pool() {
    let mut pools = vec![
        Mempool::new(1, "A", 4, 64, 0).unwrap(),
        Mempool::new(2, "B", 4, 64, 0).unwrap(),
    ];
    let a1 = pools[0].alloc_buf().unwrap();
    let a2 = pools[0].alloc_buf().unwrap();
    let b1 = pools[1].alloc_buf().unwrap();
    let a3 = pools[0].alloc_buf().unwrap();
    assert_eq!(pools[0].free_count(), 1);
    assert_eq!(pools[1].free_count(), 3);
    // two of A, then one of B, then one of A: three bulk releases
    assert_eq!(Mbuf::free_bulk(vec![a1, a2, b1, a3], &mut pools), 3);
    assert_eq!(pools[0].free_count(), 4);
    assert_eq!(pools[1].free_count(), 4);
    assert_eq!(Mbuf::mbuf_free_bulk(vec![], &mut pools), 0);
}

#[test]
fn mbuf_alloc_bulk_is_all_or_nothing() {
    let mut mp = pool(2);
    assert_eq!(Mbuf::alloc_bulk(3, &mut mp).err(), Some(MemoryError::NoBuf));
    assert_eq!(mp.free_count(), 2);
    let bufs = Mbuf::alloc_bulk(2, &mut mp).unwrap();
    assert_eq!(bufs.len(), 2);
    assert_eq!(bufs[1].data_len(), 0);
    assert_eq!(bufs[1].pool_id(), 0);
}

#[test]
fn data_address_counts_from_the_start_of_the_buffer() {
    let mut mp = pool(1);
    let b = Mbuf::from_bytes(&[1, 2, 3], &mut mp).unwrap();
    assert_eq!(b.data_address(0), Some(32));
    assert_eq!(b.data_address(3), Some(35));
    assert_eq!(b.data_address(4), None);
    assert_eq!(b.byte_at(1), Some(2));
    assert_eq!(b.byte_at(3), None);
    assert_eq!(b.data_slice(), &[1u8, 2, 3][..]);
}

#[test]
fn pool_takes_back_no_more_than_it_handed_out() {
    let mut a = Mempool::new(5, "A", 2, 64, 0).unwrap();
    let mut twin = Mempool::new(5, "TWIN", 2, 64, 0).unwrap();
    let buf = a.alloc_buf().unwrap();
    // the twin has the same id but has handed out nothing
    assert_eq!(twin.free(buf), Err(MemoryError::NoSpace));
    assert_eq!(twin.free_count(), 2);
    assert_eq!(twin.in_use(), 0);
    let one = a.alloc_buf().unwrap();
    let other = twin.alloc_buf().unwrap();
    assert_eq!(twin.free_each(vec![one, other]), 1);
    assert_eq!(a.name(), &b"A".to_vec());
    assert_eq!(a.id(), 5);
}

#[test]
fn from_bytes_on_an_exhausted_pool_is_no_buf() {
    let mut mp = pool(1);
    let _held = Mbuf::from_bytes(&[1], &mut mp).unwrap();
    assert_eq!(
        Mbuf::from_bytes(&[2], &mut mp).err(),
        Some(MbufError::Memory(MemoryError::NoBuf))
    );
    let mut small = Mempool::new(0, "SMALL", 1, 8, 4).unwrap();
    assert_eq!(
        Mbuf::from_bytes(&[0; 5], &mut small).err(),
        Some(MbufError::Buf(BufError::OutOfBuffer(5, 4)))
    );
    assert_eq!(small.free_count(), 1);
}

#[test]
fn a_bulk_release_holds_buffers_of_one_pool() {
    let mut a = Mempool::new(1, "A", 4, 64, 0).unwrap();
    let mut b = Mempool::new(2, "B", 4, 64, 0).unwrap();
    let mixed = vec![a.alloc_buf().unwrap(), b.alloc_buf().unwrap(), a.alloc_buf().unwrap()];
    // the buffers come back, so that the caller can split them
    let (kind, back) = a.free_bulk(mixed).unwrap_err();
    assert_eq!(kind, MemoryError::Invalid);
    assert_eq!(back.len(), 3);
    assert_eq!(a.free_count(), 2);
    let mut own = Vec::new();
    let mut others = Vec::new();
    for buf in back {
        if buf.pool_id() == a.id() {
            own.push(buf);
        } else {
            others.push(buf);
        }
    }
    assert_eq!(a.free_bulk(own).ok(), Some(2));
    assert_eq!(b.free_bulk(others).ok(), Some(1));
    assert_eq!(a.free_count(), 4);
    assert_eq!(b.free_count(), 4);
    // no more than the pool has handed out
    let mut twin = Mempool::new(1, "TWIN", 4, 64, 0).unwrap();
    let from_a = vec![a.alloc_buf().unwrap()];
    let (kind, back) = twin.free_bulk(from_a).unwrap_err();
    assert_eq!(kind, MemoryError::NoSpace);
    assert_eq!(a.free_bulk(back).ok(), Some(1));
    assert_eq!(a.free_bulk(Vec::new()).ok(), Some(0));
}
