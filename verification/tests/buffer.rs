use vmcircbuffer::double_mapped_buffer::DoubleMappedBuffer;
use vmcircbuffer::double_mapped_buffer::pagesize;

#[test]
fn byte_buffer() {
    let mut b = DoubleMappedBuffer::<u8>::new(123).expect("failed to create buffer");
    let ps = pagesize();

    assert_eq!(b.capacity() * std::mem::size_of::<u8>() % ps, 0);
    assert!(b.capacity() >= 123);

    let cap = b.capacity();
    let s = b.slice();
    assert_eq!(s.len(), cap);

    for i in 0..cap {
        b.write(i, (i % 128) as u8);
    }

    let s = b.slice_with_offset(cap);
    assert_eq!(s.len(), cap);
    for (i, v) in s.iter().enumerate() {
        assert_eq!(*v, (i % 128) as u8);
    }

    b.write(0, 123);
    assert_eq!(b.slice_with_offset(cap)[0], 123);
}

#[test]
fn u32_buffer() {
    let mut b = DoubleMappedBuffer::<u32>::new(12311).expect("failed to create buffer");
    let ps = pagesize();

    assert_eq!(b.capacity() * std::mem::size_of::<u32>() % ps, 0);
    assert!(b.capacity() >= 12311);

    let cap = b.capacity();
    let s = b.slice();
    assert_eq!(s.len(), cap);

    for i in 0..cap {
        b.write(i, (i % 128) as u32);
    }

    let s = b.slice_with_offset(cap);
    assert_eq!(s.len(), cap);
    for (i, v) in s.iter().enumerate() {
        assert_eq!(*v, (i % 128) as u32);
    }

    b.write(0, 123);
    assert_eq!(b.slice_with_offset(cap)[0], 123);
}

#[test]
fn many_buffers() {
    let _b0 = DoubleMappedBuffer::<u32>::new(123).expect("failed to create buffer");
    let _b1 = DoubleMappedBuffer::<u32>::new(456).expect("failed to create buffer");

    let mut v = Vec::new();

    for _ in 0..100 {
        v.push(DoubleMappedBuffer::<u32>::new(123).expect("failed to create buffer"));
    }
}

#[test]
fn buffer_zero_min() {
    let b = DoubleMappedBuffer::<u8>::new(0).expect("failed to create buffer");
    assert!(b.capacity() >= 1);
    assert_eq!(b.capacity() * std::mem::size_of::<u8>() % pagesize(), 0);
}

#[test]
fn buffer_infeasible() {
    let r = DoubleMappedBuffer::<u32>::new(usize::MAX);
    assert!(r.is_err());
}

#[test]
fn alias_every_offset() {
    let mut b = DoubleMappedBuffer::<u8>::new(0).expect("failed to create buffer");
    let cap = b.capacity();
    for i in 0..cap {
        b.write(i, (i % 251) as u8);
    }
    for o in [0, 1, cap / 2, cap - 1, cap] {
        let s = b.slice_with_offset(o);
        assert_eq!(s.len(), cap);
        for i in 0..cap {
            assert_eq!(s[i], (((o + i) % cap) % 251) as u8);
        }
    }
}
