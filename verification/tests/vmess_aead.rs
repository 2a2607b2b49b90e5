use aes::cipher::{BlockDecrypt, KeyInit};
use aws_lc_rs::aead::{Aad, LessSafeKey, Nonce, UnboundKey, AES_128_GCM};
use aws_lc_rs::hmac;
use titan::config::ProxyConfig;
use titan::target::{HostAddress, Target};
use titan::vmess::VMessProxy;
use titan::md5::md5;
use titan::vmess::VmessError;
use titan::vmess_aead::{
    auth_id_key, compose_request, header_keys, instruction_key, kdf, response_header_info, seal_request,
};

fn hmac_over(hash: &dyn Fn(&[u8]) -> Vec<u8>, key: &[u8], msg: &[u8]) -> Vec<u8> {
    let mut k = key.to_vec();
    k.resize(64, 0);
    let mut inner: Vec<u8> = k.iter().map(|b| b ^ 0x36).collect();
    inner.extend_from_slice(msg);
    let ih = hash(&inner);
    let mut outer: Vec<u8> = k.iter().map(|b| b ^ 0x5c).collect();
    outer.extend_from_slice(&ih);
    hash(&outer)
}

fn salt_hmac(m: &[u8]) -> Vec<u8> {
    let k = hmac::Key::new(hmac::HMAC_SHA256, b"VMess AEAD KDF");
    hmac::sign(&k, m).as_ref().to_vec()
}

fn open(key: &[u8; 16], nonce: &[u8; 12], aad: &[u8], sealed: &[u8]) -> Vec<u8> {
    let k = LessSafeKey::new(UnboundKey::new(&AES_128_GCM, key).unwrap());
    let mut buf = sealed.to_vec();
    let plain = k.open_in_place(Nonce::assume_unique_for_key(*nonce), Aad::from(aad), &mut buf).unwrap();
    plain.to_vec()
}

#[test]
fn kdf_without_path_is_hmac_under_the_salt() {
    let key = b"0123456789abcdef";
    assert_eq!(kdf(key, &vec![]), salt_hmac(key));
}

#[test]
fn kdf_nests_hmac_along_the_path() {
    let key = b"0123456789abcdef";
    let expected = hmac_over(&salt_hmac, b"AES Auth ID Encryption", key);
    assert_eq!(kdf(key, &vec![b"AES Auth ID Encryption".to_vec()]), expected);
    assert_eq!(auth_id_key(key).to_vec(), expected[..16].to_vec());
    let level2 = |m: &[u8]| hmac_over(&salt_hmac, b"a", m);
    let expected2 = hmac_over(&level2, b"b", key);
    assert_eq!(kdf(key, &vec![b"a".to_vec(), b"b".to_vec()]), expected2);
}

#[test]
fn composed_request_is_the_four_parts_in_order() {
    let r = compose_request(&[1u8; 16], &[2u8; 18], &[3u8; 8], &[4u8; 5]);
    let mut expected = vec![1u8; 16];
    expected.extend_from_slice(&[2u8; 18]);
    expected.extend_from_slice(&[3u8; 8]);
    expected.extend_from_slice(&[4u8; 5]);
    assert_eq!(r, expected);
}

#[test]
fn sealed_request_opens_under_the_derived_keys() {
    let ik = [7u8; 16];
    let auth = [1u8; 16];
    let nonce = [2u8; 8];
    let header = b"hello header".to_vec();
    let out = seal_request(&ik, &auth, &nonce, &header).unwrap();
    assert_eq!(out.len(), 16 + 18 + 8 + header.len() + 16);
    assert_eq!(&out[..16], &auth);
    assert_eq!(&out[34..42], &nonce);
    let keys = header_keys(&ik, &auth, &nonce);
    let path = vec![b"VMess Header AEAD Key".to_vec(), auth.to_vec(), nonce.to_vec()];
    assert_eq!(keys.header_key.to_vec(), kdf(&ik, &path)[..16].to_vec());
    assert_eq!(open(&keys.length_key, &keys.length_nonce, &auth, &out[16..34]), vec![0, header.len() as u8]);
    assert_eq!(open(&keys.header_key, &keys.header_nonce, &auth, &out[42..]), header);
}

#[test]
fn written_vmess_request_carries_the_header() {
    let mut config = ProxyConfig::empty();
    config.name = "vmess-outbound".to_string();
    config.proxy_type = "vmess".to_string();
    config.server = "127.0.0.1".to_string();
    config.port = 1080;
    config.uuid = Some("123e4567-e89b-12d3-a456-426614174000".to_string());
    config.cipher = Some("auto".to_string());
    let p = VMessProxy::from_config(&config);
    let uuid = [0x12, 0x3e, 0x45, 0x67, 0xe8, 0x9b, 0x12, 0xd3, 0xa4, 0x56, 0x42, 0x66, 0x14, 0x17, 0x40, 0x00];
    let ik = instruction_key(&uuid);
    assert_eq!(ik, [250, 9, 82, 27, 90, 27, 7, 59, 11, 211, 188, 228, 115, 224, 27, 220]);
    let target = Target::new("example.com".to_string(), 443);
    let out = p.request(&target, &HostAddress::Name).unwrap();

    let cipher = aes::Aes128::new((&auth_id_key(&ik)).into());
    let mut block = [0u8; 16];
    block.copy_from_slice(&out[..16]);
    cipher.decrypt_block((&mut block).into());
    assert_eq!(block[12..16], crc32c::crc32c(&block[..12]).to_be_bytes());

    let mut auth = [0u8; 16];
    auth.copy_from_slice(&out[..16]);
    let mut nonce = [0u8; 8];
    nonce.copy_from_slice(&out[34..42]);
    let keys = header_keys(&ik, &auth, &nonce);
    let len = open(&keys.length_key, &keys.length_nonce, &auth, &out[16..34]);
    let h = open(&keys.header_key, &keys.header_nonce, &auth, &out[42..]);
    assert_eq!(u16::from_be_bytes([len[0], len[1]]) as usize, h.len());
    assert_eq!(h[0], 1);
    assert_eq!(h[37], 0x01);
    assert_eq!(h[38..40], [0x01, 0xBB]);
    assert_eq!(h[40], 0x02);
    assert_eq!(h[41], 11);
    assert_eq!(&h[42..53], b"example.com");
}

fn hex(d: [u8; 16]) -> String {
    d.iter().map(|b| format!("{:02x}", b)).collect()
}

#[test]
fn md5_digests_match_the_reference_values() {
    assert_eq!(hex(md5(b"")), "d41d8cd98f00b204e9800998ecf8427e");
    assert_eq!(hex(md5(b"abc")), "900150983cd24fb0d6963f7d28e17f72");
    assert_eq!(hex(md5(&[b'a'; 55])), "ef1772b6dff9a122358552954ad0df65");
    assert_eq!(hex(md5(&[b'a'; 56])), "3b0c8ac703f828b04c6c197006d17218");
    assert_eq!(hex(md5(&[b'a'; 64])), "014842d480b571495a4a0363793f7367");
    assert_eq!(hex(md5(&[b'a'; 119])), "8a7bd0732ed6a28ce75f6dabc90e1613");
    assert_eq!(hex(md5(&[b'a'; 200])), "887f30b43b2867f4a9accceee7d16e6c");
}

#[test]
fn request_refuses_a_bad_uuid() {
    let mut config = ProxyConfig::empty();
    config.proxy_type = "vmess".to_string();
    config.uuid = Some("not-a-uuid".to_string());
    let p = VMessProxy::from_config(&config);
    let target = Target::new("example.com".to_string(), 443);
    assert_eq!(p.request(&target, &HostAddress::Name), Err(VmessError::InvalidUuid));
    let mut long = ProxyConfig::empty();
    long.uuid = Some("123e4567-e89b-12d3-a456-426614174000".to_string());
    let q = VMessProxy::from_config(&long);
    let far = Target::new("a".repeat(300), 443);
    assert_eq!(q.request(&far, &HostAddress::Name), Err(VmessError::HostnameTooLong));
}

#[test]
fn response_keys_hash_the_data_iv_and_key() {
    let mut header = vec![1u8];
    header.extend((1..=33).map(|b| b as u8));
    let info = response_header_info(&header);
    let iv = aws_lc_rs::digest::digest(&aws_lc_rs::digest::SHA256, &header[1..17]);
    let key = aws_lc_rs::digest::digest(&aws_lc_rs::digest::SHA256, &header[17..33]);
    assert_eq!(info.response_header_iv.to_vec(), iv.as_ref()[..16].to_vec());
    assert_eq!(info.response_header_key.to_vec(), key.as_ref()[..16].to_vec());
    assert_eq!(info.response_authentication_v, 33);
}
