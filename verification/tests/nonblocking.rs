use rand::distributions::{Distribution, Uniform};
use std::iter::repeat_with;

use vmcircbuffer::nonblocking::Circular;

#[test]
fn nonblocking_create_many() {
    let mut v = Vec::new();
    for _ in 0..100 {
        v.push(Circular::new::<u8>().unwrap());
    }
}

#[test]
fn nonblocking_zero_size() {
    let mut w = Circular::new::<u8>().unwrap();
    assert!(w.try_space() != 0);
}

#[test]
fn nonblocking_no_reader() {
    let mut w = Circular::new::<u8>().unwrap();
    let l = w.try_space();
    w.produce(l);
    assert!(w.try_space() != 0);
}

#[test]
fn nonblocking_late_reader() {
    let mut w = Circular::new::<u32>().unwrap();
    let l = w.try_space();
    assert!(l >= 200);
    for i in 0..200 {
        w.write_at(i, i as u32);
    }
    w.produce(100);

    let r = w.add_reader();
    assert_eq!(w.try_slice(&r).unwrap().len(), 0);
    w.produce(100);
    assert_eq!(w.try_slice(&r).unwrap().len(), 100);
    for (i, v) in w.try_slice(&r).unwrap().iter().enumerate() {
        assert_eq!(*v, 100 + i as u32);
    }
}

#[test]
fn nonblocking_several_readers() {
    let mut w = Circular::new::<u32>().unwrap();

    let r1 = w.add_reader();
    let r2 = w.add_reader();

    let all = w.try_space();
    for i in 0..all {
        w.write_at(i, i as u32);
    }
    assert_eq!(w.try_slice(&r1).unwrap().len(), 0);
    let l = w.try_space();
    w.produce(l);
    assert_eq!(w.try_slice(&r2).unwrap().len(), all);

    let _ = w.try_slice(&r1);
    w.consume(&r1, 100);

    assert_eq!(w.try_slice(&r1).unwrap().len(), all - 100);
    for (i, v) in w.try_slice(&r1).unwrap().iter().enumerate() {
        assert_eq!(*v, 100 + i as u32);
    }
}

#[test]
fn nonblocking_fuzz_nonblocking() {
    let mut w = Circular::new::<u32>().unwrap();
    let r = w.add_reader();
    let size = w.try_space();

    let input: Vec<u32> = repeat_with(rand::random::<u32>).take(1231233).collect();

    let mut rng = rand::thread_rng();
    let n_writes_dist = Uniform::from(0..4);
    let n_samples_dist = Uniform::from(0..size / 2);

    let mut w_off = 0;
    let mut r_off = 0;

    while r_off < input.len() {
        let n_writes = n_writes_dist.sample(&mut rng);
        for _ in 0..n_writes {
            let s_len = w.try_space();
            let n = std::cmp::min(s_len, input.len() - w_off);
            let n = std::cmp::min(n, n_samples_dist.sample(&mut rng));

            for i in 0..n {
                w.write_at(i, input[w_off + i]);
            }
            w.produce(n);
            w_off += n;
        }

        let s = w.try_slice(&r).unwrap();
        assert_eq!(s.len(), w_off - r_off);

        for (i, v) in s.iter().enumerate() {
            assert_eq!(*v, input[r_off + i]);
        }
        let l = s.len();
        w.consume(&r, l);
        r_off += l;
    }
}

#[test]
fn nonblocking_minimal() {
    let mut w = Circular::new::<u32>().unwrap();
    let r = w.add_reader();

    let l = w.try_space();
    for i in 0..l {
        w.write_at(i, 123);
    }
    w.produce(l);

    for v in w.try_slice(&r).unwrap().iter() {
        assert_eq!(*v, 123);
    }
}

#[test]
fn circular_create_many() {
    let mut v = Vec::new();
    for _ in 0..100 {
        v.push(Circular::with_capacity::<u8>(123).unwrap());
    }
}

#[test]
fn circular_zero_size() {
    let mut w = Circular::with_capacity::<u8>(0).unwrap();
    assert!(w.try_space() > 0);
}

#[test]
fn circular_no_reader() {
    let mut w = Circular::with_capacity::<u8>(123).unwrap();
    let l = w.try_space();
    w.produce(l);
    assert!(w.try_space() > 0);
}

#[test]
fn circular_late_reader() {
    let mut w = Circular::with_capacity::<u32>(200).unwrap();
    let l = w.try_space();
    assert!(l >= 200);
    for i in 0..200 {
        w.write_at(i, i as u32);
    }
    w.produce(100);

    let r = w.add_reader();
    assert_eq!(w.try_slice(&r).unwrap().len(), 0);
    w.produce(100);
    assert_eq!(w.try_slice(&r).unwrap().len(), 100);
    for (i, v) in w.try_slice(&r).unwrap().iter().enumerate() {
        assert_eq!(*v, 100 + i as u32);
    }
}

#[test]
fn circular_several_readers() {
    let mut w = Circular::with_capacity::<u32>(200).unwrap();

    let r1 = w.add_reader();
    let r2 = w.add_reader();

    let all = w.try_space();
    for i in 0..all {
        w.write_at(i, i as u32);
    }
    assert_eq!(w.try_slice(&r1).unwrap().len(), 0);
    let l = w.try_space();
    w.produce(l);
    assert_eq!(w.try_slice(&r2).unwrap().len(), all);

    let _ = w.try_slice(&r1);
    w.consume(&r1, 100);

    assert_eq!(w.try_slice(&r1).unwrap().len(), all - 100);
    for (i, v) in w.try_slice(&r1).unwrap().iter().enumerate() {
        assert_eq!(*v, 100 + i as u32);
    }
}

#[test]
fn fuzz() {
    let mut w = Circular::with_capacity::<u32>(200).unwrap();
    let r = w.add_reader();
    let size = w.try_space();

    let input: Vec<u32> = repeat_with(rand::random::<u32>).take(1231233).collect();

    let mut rng = rand::thread_rng();
    let n_writes_dist = Uniform::from(0..4);
    let n_samples_dist = Uniform::from(0..size / 2);

    let mut w_off = 0;
    let mut r_off = 0;

    while r_off < input.len() {
        let n_writes = n_writes_dist.sample(&mut rng);
        for _ in 0..n_writes {
            let s_len = w.try_space();
            let n = std::cmp::min(s_len, input.len() - w_off);
            let n = std::cmp::min(n, n_samples_dist.sample(&mut rng));

            for i in 0..n {
                w.write_at(i, input[w_off + i]);
            }
            w.produce(n);
            w_off += n;
        }

        let s = w.try_slice(&r).unwrap();
        assert_eq!(s.len(), w_off - r_off);

        for (i, v) in s.iter().enumerate() {
            assert_eq!(*v, input[r_off + i]);
        }
        let l = s.len();
        w.consume(&r, l);
        r_off += l;
    }
}
