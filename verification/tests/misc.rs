use telepipe::array::Array;
use telepipe::dns::{dns_reply, DnsClass, DnsRecordType, ANSWER_TTL, GAME_HOST};

#[test]
fn array_basics() {
    let a: Array<u32> = Array::new(5);
    assert_eq!(a.len(), 5);
    assert_eq!(*a.index(4), 0);
    let mut b = Array::with_default(3, 7u8);
    assert_eq!(b.len(), 3);
    *b.index_mut(1) = 9;
    assert_eq!((*b.index(0), *b.index(1), *b.index(2)), (7, 9, 7));
    let c = b.clone();
    assert_eq!(c, b);
    let d: Array<u8> = Array::from(vec![1, 2]);
    assert_eq!(d.len(), 2);
    assert_eq!(*d.index(1), 2);
}

#[test]
fn dns_answer() {
    let r = dns_reply(0x1234, [192, 168, 150, 1]);
    assert_eq!(r.id, 0x1234);
    assert!(r.authoritative && r.response && !r.recursion_available);
    assert_eq!(r.answer.len(), 1);
    assert_eq!(r.authority.len(), 1);
    for rec in r.answer.iter().chain(r.authority.iter()) {
        assert_eq!(rec.name, GAME_HOST);
        assert_eq!(rec.ttl, ANSWER_TTL);
        assert_eq!(rec.record_type, DnsRecordType::A);
        assert_eq!(rec.class, DnsClass::Internet);
        assert_eq!(rec.address, [192, 168, 150, 1]);
    }
}
