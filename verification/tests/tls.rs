use curf::ssl::{
    assemble, choose_chain, choose_key, judge_identity, load_cert_and_key, load_chain, load_key,
    prepare, DomainCert, PrivateKey, SslError, SslManager,
};
use rustls::client::danger::{HandshakeSignatureValid, ServerCertVerified, ServerCertVerifier};
use rustls::crypto::ring::default_provider;
use rustls::pki_types::{CertificateDer, ServerName, UnixTime};
use rustls::{ClientConfig, ClientConnection, DigitallySignedStruct, ServerConnection};
use rustls::{Error, SignatureScheme};
use std::sync::{Arc, Mutex};

const CERT: [u8; 308] = [
    48, 130, 1, 48, 48, 129, 216, 160, 3, 2, 1, 2, 2, 1, 7, 48,
    10, 6, 8, 42, 134, 72, 206, 61, 4, 3, 2, 48, 12, 49, 10, 48,
    8, 6, 3, 85, 4, 3, 12, 1, 116, 48, 30, 23, 13, 50, 52, 48,
    49, 48, 49, 48, 48, 48, 48, 48, 48, 90, 23, 13, 52, 52, 48, 49,
    48, 49, 48, 48, 48, 48, 48, 48, 90, 48, 12, 49, 10, 48, 8, 6,
    3, 85, 4, 3, 12, 1, 116, 48, 89, 48, 19, 6, 7, 42, 134, 72,
    206, 61, 2, 1, 6, 8, 42, 134, 72, 206, 61, 3, 1, 7, 3, 66,
    0, 4, 213, 241, 253, 218, 122, 250, 38, 89, 172, 90, 197, 93, 10, 162,
    226, 126, 22, 87, 76, 136, 32, 106, 181, 253, 240, 34, 219, 173, 78, 30,
    136, 196, 125, 255, 9, 204, 19, 177, 59, 54, 108, 191, 89, 109, 215, 232,
    175, 233, 119, 55, 235, 61, 106, 177, 207, 162, 164, 6, 56, 28, 201, 46,
    247, 149, 163, 43, 48, 41, 48, 39, 6, 3, 85, 29, 17, 4, 32, 48,
    30, 130, 11, 101, 120, 97, 109, 112, 108, 101, 46, 99, 111, 109, 130, 15,
    119, 119, 119, 46, 101, 120, 97, 109, 112, 108, 101, 46, 99, 111, 109, 48,
    10, 6, 8, 42, 134, 72, 206, 61, 4, 3, 2, 3, 71, 0, 48, 68,
    2, 32, 64, 43, 104, 156, 204, 5, 234, 109, 101, 220, 192, 93, 19, 66,
    47, 16, 229, 121, 221, 23, 216, 54, 120, 197, 42, 93, 41, 45, 178, 14,
    151, 214, 2, 32, 112, 145, 177, 196, 254, 247, 20, 17, 92, 97, 62, 149,
    93, 16, 162, 21, 111, 24, 81, 213, 28, 186, 56, 18, 231, 30, 129, 96,
    24, 143, 189, 20,
];

const KEY: [u8; 138] = [
    48, 129, 135, 2, 1, 0, 48, 19, 6, 7, 42, 134, 72, 206, 61, 2,
    1, 6, 8, 42, 134, 72, 206, 61, 3, 1, 7, 4, 109, 48, 107, 2,
    1, 1, 4, 32, 145, 56, 205, 13, 179, 233, 188, 126, 170, 29, 23, 208,
    156, 80, 164, 196, 165, 26, 123, 169, 197, 184, 53, 106, 212, 252, 246, 249,
    144, 249, 55, 41, 161, 68, 3, 66, 0, 4, 213, 241, 253, 218, 122, 250,
    38, 89, 172, 90, 197, 93, 10, 162, 226, 126, 22, 87, 76, 136, 32, 106,
    181, 253, 240, 34, 219, 173, 78, 30, 136, 196, 125, 255, 9, 204, 19, 177,
    59, 54, 108, 191, 89, 109, 215, 232, 175, 233, 119, 55, 235, 61, 106, 177,
    207, 162, 164, 6, 56, 28, 201, 46, 247, 149,
];

const OTHER_CERT: [u8; 290] = [
    48, 130, 1, 30, 48, 129, 198, 160, 3, 2, 1, 2, 2, 1, 7, 48,
    10, 6, 8, 42, 134, 72, 206, 61, 4, 3, 2, 48, 12, 49, 10, 48,
    8, 6, 3, 85, 4, 3, 12, 1, 116, 48, 30, 23, 13, 50, 52, 48,
    49, 48, 49, 48, 48, 48, 48, 48, 48, 90, 23, 13, 52, 52, 48, 49,
    48, 49, 48, 48, 48, 48, 48, 48, 90, 48, 12, 49, 10, 48, 8, 6,
    3, 85, 4, 3, 12, 1, 116, 48, 89, 48, 19, 6, 7, 42, 134, 72,
    206, 61, 2, 1, 6, 8, 42, 134, 72, 206, 61, 3, 1, 7, 3, 66,
    0, 4, 68, 165, 113, 140, 56, 130, 139, 223, 91, 105, 124, 63, 98, 180,
    68, 72, 167, 35, 223, 11, 220, 210, 163, 64, 36, 13, 87, 228, 70, 255,
    237, 240, 55, 144, 38, 27, 84, 38, 178, 174, 30, 89, 64, 33, 218, 10,
    159, 162, 119, 24, 180, 148, 166, 127, 118, 174, 44, 241, 115, 50, 234, 122,
    126, 32, 163, 25, 48, 23, 48, 21, 6, 3, 85, 29, 17, 4, 14, 48,
    12, 130, 10, 111, 116, 104, 101, 114, 46, 116, 101, 115, 116, 48, 10, 6,
    8, 42, 134, 72, 206, 61, 4, 3, 2, 3, 71, 0, 48, 68, 2, 32,
    14, 110, 20, 99, 233, 62, 18, 202, 71, 113, 200, 88, 134, 4, 184, 204,
    254, 248, 202, 108, 208, 120, 142, 224, 180, 170, 137, 37, 144, 34, 137, 51,
    2, 32, 39, 8, 221, 28, 102, 5, 160, 80, 15, 139, 205, 42, 58, 9,
    203, 116, 47, 240, 216, 211, 180, 82, 253, 231, 194, 0, 59, 236, 48, 155,
    75, 108,
];

const OTHER_KEY: [u8; 138] = [
    48, 129, 135, 2, 1, 0, 48, 19, 6, 7, 42, 134, 72, 206, 61, 2,
    1, 6, 8, 42, 134, 72, 206, 61, 3, 1, 7, 4, 109, 48, 107, 2,
    1, 1, 4, 32, 246, 226, 48, 61, 179, 213, 45, 38, 131, 248, 243, 149,
    97, 206, 51, 21, 107, 108, 239, 148, 214, 230, 69, 14, 170, 102, 25, 51,
    186, 91, 231, 114, 161, 68, 3, 66, 0, 4, 68, 165, 113, 140, 56, 130,
    139, 223, 91, 105, 124, 63, 98, 180, 68, 72, 167, 35, 223, 11, 220, 210,
    163, 64, 36, 13, 87, 228, 70, 255, 237, 240, 55, 144, 38, 27, 84, 38,
    178, 174, 30, 89, 64, 33, 218, 10, 159, 162, 119, 24, 180, 148, 166, 127,
    118, 174, 44, 241, 115, 50, 234, 122, 126, 32,
];

const RSA_CERT: [u8; 789] = [
    48, 130, 3, 17, 48, 130, 1, 249, 160, 3, 2, 1, 2, 2, 20, 38,
    149, 196, 166, 232, 39, 233, 183, 19, 169, 4, 145, 101, 14, 255, 186, 130,
    13, 24, 193, 48, 13, 6, 9, 42, 134, 72, 134, 247, 13, 1, 1, 11,
    5, 0, 48, 12, 49, 10, 48, 8, 6, 3, 85, 4, 3, 12, 1, 116,
    48, 30, 23, 13, 50, 54, 49, 49, 49, 54, 49, 57, 50, 52, 50, 53,
    90, 23, 13, 52, 54, 48, 49, 49, 53, 49, 57, 50, 52, 50, 53, 90,
    48, 12, 49, 10, 48, 8, 6, 3, 85, 4, 3, 12, 1, 116, 48, 130,
    1, 34, 48, 13, 6, 9, 42, 134, 72, 134, 247, 13, 1, 1, 1, 5,
    0, 3, 130, 1, 15, 0, 48, 130, 1, 10, 2, 130, 1, 1, 0, 175,
    7, 77, 101, 20, 175, 200, 81, 158, 92, 237, 231, 54, 193, 59, 145, 120,
    106, 203, 47, 200, 239, 48, 49, 140, 211, 7, 38, 160, 15, 95, 235, 45,
    54, 218, 100, 68, 133, 221, 216, 92, 63, 150, 88, 162, 207, 144, 216, 160,
    9, 145, 221, 206, 21, 192, 54, 133, 245, 241, 218, 152, 148, 107, 3, 209,
    161, 15, 129, 91, 80, 19, 170, 149, 138, 203, 242, 80, 97, 201, 82, 149,
    247, 46, 85, 161, 235, 157, 86, 183, 66, 40, 180, 248, 72, 100, 138, 71,
    162, 57, 43, 232, 157, 246, 227, 42, 153, 195, 164, 14, 71, 214, 147, 218,
    147, 11, 122, 76, 254, 75, 79, 81, 181, 220, 227, 62, 252, 178, 206, 138,
    60, 177, 31, 166, 108, 47, 118, 4, 66, 205, 166, 129, 240, 200, 42, 61,
    210, 96, 155, 16, 181, 131, 239, 49, 226, 98, 33, 14, 157, 247, 233, 186,
    84, 41, 40, 180, 24, 199, 57, 42, 93, 7, 56, 236, 157, 118, 29, 92,
    124, 203, 69, 53, 112, 12, 66, 70, 219, 174, 41, 185, 11, 158, 86, 113,
    58, 236, 161, 200, 139, 4, 149, 160, 43, 250, 209, 68, 3, 39, 67, 81,
    122, 246, 160, 84, 189, 5, 107, 163, 39, 196, 86, 80, 91, 130, 39, 89,
    171, 64, 113, 123, 104, 51, 64, 238, 203, 212, 192, 137, 90, 188, 81, 45,
    27, 55, 41, 81, 90, 185, 169, 130, 59, 196, 168, 235, 118, 174, 119, 2,
    3, 1, 0, 1, 163, 107, 48, 105, 48, 29, 6, 3, 85, 29, 14, 4,
    22, 4, 20, 155, 163, 15, 1, 9, 27, 108, 51, 219, 188, 161, 196, 196,
    178, 227, 230, 209, 196, 246, 101, 48, 31, 6, 3, 85, 29, 35, 4, 24,
    48, 22, 128, 20, 155, 163, 15, 1, 9, 27, 108, 51, 219, 188, 161, 196,
    196, 178, 227, 230, 209, 196, 246, 101, 48, 15, 6, 3, 85, 29, 19, 1,
    1, 255, 4, 5, 48, 3, 1, 1, 255, 48, 22, 6, 3, 85, 29, 17,
    4, 15, 48, 13, 130, 11, 101, 120, 97, 109, 112, 108, 101, 46, 99, 111,
    109, 48, 13, 6, 9, 42, 134, 72, 134, 247, 13, 1, 1, 11, 5, 0,
    3, 130, 1, 1, 0, 132, 167, 185, 135, 106, 252, 244, 136, 20, 109, 187,
    200, 163, 157, 254, 97, 152, 139, 241, 210, 167, 114, 66, 134, 187, 79, 97,
    241, 103, 102, 220, 83, 14, 174, 132, 104, 50, 32, 131, 241, 51, 226, 174,
    36, 42, 19, 191, 202, 78, 171, 166, 42, 42, 245, 232, 196, 95, 30, 111,
    193, 224, 72, 138, 209, 31, 148, 103, 142, 3, 70, 142, 67, 29, 34, 116,
    53, 103, 255, 167, 112, 37, 153, 210, 132, 130, 36, 147, 49, 133, 218, 40,
    236, 103, 51, 224, 66, 45, 17, 191, 16, 95, 57, 179, 79, 187, 138, 146,
    241, 24, 210, 133, 254, 215, 255, 197, 222, 3, 125, 7, 79, 90, 157, 195,
    255, 24, 55, 224, 209, 69, 11, 231, 250, 249, 163, 230, 70, 216, 176, 17,
    85, 138, 180, 32, 108, 89, 77, 91, 66, 159, 214, 245, 226, 143, 151, 215,
    162, 108, 123, 181, 188, 144, 97, 94, 164, 225, 243, 210, 151, 139, 93, 218,
    107, 76, 163, 79, 248, 155, 107, 110, 113, 90, 212, 162, 52, 42, 120, 73,
    194, 167, 11, 62, 252, 114, 212, 72, 68, 225, 109, 77, 44, 86, 109, 150,
    48, 3, 145, 8, 100, 98, 19, 123, 235, 34, 250, 214, 91, 181, 10, 218,
    18, 104, 218, 216, 106, 231, 32, 160, 170, 169, 151, 38, 102, 230, 32, 124,
    249, 218, 130, 240, 33, 95, 213, 129, 57, 26, 148, 62, 210, 52, 255, 93,
    60, 79, 115, 109, 216,
];

const RSA_KEY: [u8; 1191] = [
    48, 130, 4, 163, 2, 1, 0, 2, 130, 1, 1, 0, 175, 7, 77, 101,
    20, 175, 200, 81, 158, 92, 237, 231, 54, 193, 59, 145, 120, 106, 203, 47,
    200, 239, 48, 49, 140, 211, 7, 38, 160, 15, 95, 235, 45, 54, 218, 100,
    68, 133, 221, 216, 92, 63, 150, 88, 162, 207, 144, 216, 160, 9, 145, 221,
    206, 21, 192, 54, 133, 245, 241, 218, 152, 148, 107, 3, 209, 161, 15, 129,
    91, 80, 19, 170, 149, 138, 203, 242, 80, 97, 201, 82, 149, 247, 46, 85,
    161, 235, 157, 86, 183, 66, 40, 180, 248, 72, 100, 138, 71, 162, 57, 43,
    232, 157, 246, 227, 42, 153, 195, 164, 14, 71, 214, 147, 218, 147, 11, 122,
    76, 254, 75, 79, 81, 181, 220, 227, 62, 252, 178, 206, 138, 60, 177, 31,
    166, 108, 47, 118, 4, 66, 205, 166, 129, 240, 200, 42, 61, 210, 96, 155,
    16, 181, 131, 239, 49, 226, 98, 33, 14, 157, 247, 233, 186, 84, 41, 40,
    180, 24, 199, 57, 42, 93, 7, 56, 236, 157, 118, 29, 92, 124, 203, 69,
    53, 112, 12, 66, 70, 219, 174, 41, 185, 11, 158, 86, 113, 58, 236, 161,
    200, 139, 4, 149, 160, 43, 250, 209, 68, 3, 39, 67, 81, 122, 246, 160,
    84, 189, 5, 107, 163, 39, 196, 86, 80, 91, 130, 39, 89, 171, 64, 113,
    123, 104, 51, 64, 238, 203, 212, 192, 137, 90, 188, 81, 45, 27, 55, 41,
    81, 90, 185, 169, 130, 59, 196, 168, 235, 118, 174, 119, 2, 3, 1, 0,
    1, 2, 130, 1, 0, 86, 54, 177, 27, 68, 164, 207, 117, 208, 157, 50,
    188, 76, 190, 194, 210, 69, 111, 201, 52, 248, 243, 68, 152, 107, 166, 248,
    227, 64, 61, 66, 128, 139, 173, 116, 198, 165, 240, 16, 150, 5, 222, 118,
    118, 163, 127, 189, 119, 206, 224, 215, 222, 91, 40, 96, 157, 26, 192, 74,
    72, 228, 22, 91, 94, 46, 176, 120, 124, 61, 215, 196, 80, 38, 200, 14,
    236, 133, 70, 157, 141, 149, 252, 2, 241, 64, 72, 88, 32, 130, 53, 78,
    234, 209, 79, 139, 98, 135, 165, 115, 38, 219, 54, 144, 9, 86, 143, 22,
    12, 165, 210, 33, 242, 131, 92, 33, 239, 180, 164, 31, 193, 106, 220, 187,
    120, 158, 42, 136, 2, 28, 202, 97, 53, 184, 152, 200, 129, 12, 2, 119,
    9, 106, 182, 35, 71, 44, 35, 182, 24, 51, 50, 152, 117, 12, 23, 35,
    180, 55, 214, 130, 77, 45, 224, 80, 74, 71, 94, 215, 215, 214, 25, 125,
    198, 55, 185, 112, 250, 129, 60, 87, 209, 69, 165, 91, 172, 249, 50, 195,
    100, 47, 116, 248, 232, 3, 116, 250, 245, 33, 182, 175, 112, 80, 114, 176,
    73, 162, 28, 163, 154, 136, 148, 249, 227, 117, 103, 230, 233, 175, 244, 164,
    17, 80, 121, 129, 11, 212, 181, 78, 64, 252, 174, 211, 54, 29, 11, 53,
    105, 72, 206, 228, 207, 125, 137, 53, 85, 183, 247, 89, 168, 253, 140, 227,
    178, 151, 7, 228, 9, 2, 129, 129, 0, 245, 93, 219, 54, 20, 92, 220,
    41, 34, 194, 11, 75, 124, 118, 220, 0, 246, 28, 156, 103, 1, 40, 109,
    180, 130, 220, 56, 216, 203, 225, 118, 95, 121, 154, 110, 22, 165, 117, 49,
    251, 197, 142, 88, 164, 240, 15, 219, 129, 202, 89, 204, 139, 30, 95, 157,
    8, 61, 111, 72, 61, 5, 172, 101, 81, 77, 34, 103, 89, 139, 222, 247,
    115, 35, 241, 135, 111, 236, 198, 14, 229, 215, 39, 241, 205, 86, 164, 147,
    151, 11, 3, 17, 203, 172, 22, 95, 177, 60, 10, 133, 7, 93, 44, 12,
    128, 49, 240, 57, 214, 249, 125, 54, 153, 214, 111, 102, 87, 183, 222, 75,
    97, 31, 75, 216, 121, 79, 118, 192, 31, 2, 129, 129, 0, 182, 157, 26,
    18, 109, 189, 69, 57, 185, 171, 86, 22, 194, 136, 96, 29, 95, 158, 224,
    189, 180, 29, 249, 155, 157, 87, 149, 40, 143, 41, 135, 163, 12, 157, 176,
    39, 97, 92, 192, 153, 215, 75, 41, 245, 131, 59, 42, 225, 5, 173, 113,
    214, 94, 159, 38, 2, 22, 4, 203, 250, 176, 217, 81, 89, 164, 138, 186,
    136, 104, 57, 245, 47, 117, 196, 229, 26, 240, 221, 115, 105, 45, 107, 180,
    182, 163, 190, 80, 161, 58, 43, 223, 197, 164, 111, 31, 0, 75, 78, 17,
    76, 247, 144, 140, 190, 129, 222, 194, 255, 240, 122, 94, 158, 250, 99, 172,
    227, 45, 178, 156, 247, 34, 179, 2, 43, 51, 202, 230, 169, 2, 129, 128,
    124, 47, 190, 205, 134, 76, 225, 153, 104, 96, 49, 251, 72, 201, 151, 220,
    92, 180, 106, 108, 175, 231, 88, 111, 46, 116, 107, 201, 62, 151, 164, 163,
    250, 22, 49, 118, 0, 212, 106, 49, 245, 241, 111, 232, 59, 32, 171, 134,
    235, 117, 187, 211, 5, 210, 122, 214, 58, 209, 226, 12, 16, 157, 10, 194,
    181, 121, 158, 57, 114, 83, 173, 134, 119, 64, 189, 189, 230, 102, 240, 15,
    96, 112, 117, 47, 234, 148, 109, 166, 219, 9, 248, 173, 207, 49, 155, 201,
    70, 140, 68, 124, 79, 170, 5, 193, 180, 132, 211, 161, 124, 176, 229, 59,
    195, 142, 170, 139, 231, 33, 249, 160, 244, 136, 28, 206, 121, 107, 175, 29,
    2, 129, 129, 0, 161, 119, 176, 1, 243, 126, 147, 163, 67, 4, 184, 142,
    79, 91, 254, 128, 122, 120, 37, 8, 24, 39, 24, 249, 251, 217, 225, 77,
    135, 168, 149, 2, 26, 185, 163, 116, 110, 166, 112, 182, 150, 163, 35, 106,
    174, 170, 182, 115, 89, 109, 207, 102, 89, 44, 39, 147, 88, 156, 205, 47,
    209, 7, 150, 226, 200, 150, 209, 240, 163, 23, 252, 48, 6, 214, 30, 46,
    0, 36, 15, 84, 68, 145, 35, 173, 10, 131, 209, 15, 126, 60, 37, 20,
    193, 28, 112, 48, 246, 101, 4, 239, 37, 71, 110, 235, 84, 50, 0, 2,
    6, 68, 109, 61, 236, 240, 13, 130, 162, 121, 120, 73, 29, 41, 99, 21,
    136, 42, 52, 97, 2, 129, 128, 83, 127, 178, 226, 243, 28, 232, 93, 6,
    15, 31, 212, 167, 33, 246, 122, 241, 144, 0, 244, 186, 175, 191, 176, 192,
    136, 35, 46, 143, 97, 87, 108, 21, 163, 20, 23, 71, 255, 170, 93, 21,
    5, 225, 36, 55, 246, 198, 123, 40, 89, 140, 106, 5, 142, 253, 3, 27,
    172, 62, 215, 60, 115, 177, 202, 236, 208, 204, 144, 69, 208, 204, 66, 184,
    214, 237, 157, 1, 83, 121, 99, 236, 47, 37, 198, 88, 125, 205, 24, 245,
    232, 102, 213, 63, 59, 151, 248, 141, 111, 93, 106, 71, 174, 250, 245, 36,
    140, 157, 77, 29, 224, 22, 143, 110, 193, 236, 32, 94, 69, 25, 213, 176,
    97, 189, 5, 62, 143, 254, 126,
];

const ED25519_KEY: [u8; 48] = [
    48, 46, 2, 1, 0, 48, 5, 6, 3, 43, 101, 112, 4, 34, 4, 32,
    104, 155, 166, 2, 94, 74, 1, 235, 33, 52, 146, 153, 177, 223, 70, 82,
    12, 80, 225, 172, 18, 219, 108, 142, 45, 191, 99, 193, 41, 153, 135, 232,
];

fn base64(bytes: &[u8]) -> String {
    let alphabet: Vec<char> = ('A'..='Z')
        .chain('a'..='z')
        .chain('0'..='9')
        .chain(['+', '/'])
        .collect();
    let mut text = String::new();
    for group in bytes.chunks(3) {
        let mut n = 0usize;
        for i in 0..3 {
            n = n * 256 + *group.get(i).unwrap_or(&0) as usize;
        }
        for i in 0..4 {
            if i <= group.len() {
                text.push(alphabet[(n >> (18 - 6 * i)) % 64]);
            } else {
                text.push('=');
            }
        }
    }
    text
}

fn pem(label: &str, bytes: &[u8]) -> Vec<u8> {
    let dashes = "-".repeat(5);
    format!(
        "{0}BEGIN {1}{0}\n{2}\n{0}END {1}{0}\n",
        dashes,
        label,
        base64(bytes)
    )
    .into_bytes()
}

fn key_label(kind: &str) -> String {
    format!("{}PRIVATE {}", kind, "KEY")
}

fn broken() -> Vec<u8> {
    let dashes = "-".repeat(5);
    format!("{0}BEGIN CERTIFICATE{0}\n!!!\n{0}END CERTIFICATE{0}\n", dashes).into_bytes()
}

#[test]
fn chains_are_read() {
    let mut file = pem("CERTIFICATE", &[1, 2, 3]);
    file.extend(pem(&key_label(""), &[9]));
    file.extend(pem("CERTIFICATE", &[4]));
    assert_eq!(load_chain(&file), Ok(vec![vec![1, 2, 3], vec![4]]));
    assert_eq!(load_chain(&b"hello".to_vec()), Err(SslError::NoCertificates));
    assert_eq!(load_chain(&Vec::new()), Err(SslError::NoCertificates));
    assert_eq!(load_chain(&broken()), Err(SslError::BadCertificates));
}

#[test]
fn found_certificates_are_judged() {
    assert_eq!(choose_chain(None), Err(SslError::BadCertificates));
    assert_eq!(choose_chain(Some(vec![])), Err(SslError::NoCertificates));
    assert_eq!(choose_chain(Some(vec![vec![1]])), Ok(vec![vec![1]]));
}

#[test]
fn keys_are_read_in_order_of_their_formats() {
    let pkcs8 = pem(&key_label(""), &[8, 8]);
    let pkcs1 = pem(&key_label("RSA "), &[1, 1]);
    let sec1 = pem(&key_label("EC "), &[5, 5]);
    assert_eq!(load_key(&pkcs8), Ok(PrivateKey::Pkcs8(vec![8, 8])));
    assert_eq!(load_key(&pkcs1), Ok(PrivateKey::Pkcs1(vec![1, 1])));
    assert_eq!(load_key(&sec1), Ok(PrivateKey::Sec1(vec![5, 5])));
    let all = [sec1.clone(), pkcs1.clone(), pkcs8].concat();
    assert_eq!(load_key(&all), Ok(PrivateKey::Pkcs8(vec![8, 8])));
    let two = [sec1, pkcs1].concat();
    assert_eq!(load_key(&two), Ok(PrivateKey::Pkcs1(vec![1, 1])));
    assert_eq!(load_key(&pem("CERTIFICATE", &[1])), Err(SslError::NoKey));
    assert_eq!(load_key(&broken()), Err(SslError::NoKey));
}

#[test]
fn found_keys_are_judged() {
    let none: Option<Vec<Vec<u8>>> = None;
    let empty = Some(vec![]);
    let some = Some(vec![vec![1], vec![2]]);
    assert_eq!(choose_key(&some, &some, &some), Ok(PrivateKey::Pkcs8(vec![1])));
    assert_eq!(choose_key(&none, &some, &some), Ok(PrivateKey::Pkcs1(vec![1])));
    assert_eq!(choose_key(&empty, &none, &some), Ok(PrivateKey::Sec1(vec![1])));
    assert_eq!(choose_key(&empty, &none, &empty), Err(SslError::NoKey));
}

#[test]
fn files_are_judged_together() {
    let cert = pem("CERTIFICATE", &CERT);
    let key = pem(&key_label(""), &KEY);
    assert_eq!(
        load_cert_and_key(&cert, &key),
        Ok((vec![CERT.to_vec()], PrivateKey::Pkcs8(KEY.to_vec())))
    );
    assert_eq!(load_cert_and_key(&broken(), &Vec::new()), Err(SslError::BadCertificates));
    assert_eq!(load_cert_and_key(&key, &Vec::new()), Err(SslError::NoCertificates));
    assert_eq!(load_cert_and_key(&cert, &cert), Err(SslError::NoKey));
}

#[test]
fn acceptor_is_built_for_fitting_certificates() {
    let cert = pem("CERTIFICATE", &CERT);
    let key = pem(&key_label(""), &KEY);
    let mut m = SslManager::new();
    assert!(!m.has_domains());
    assert_eq!(m.add_domain("example.com".to_string(), &cert, &key), Ok(()));
    assert_eq!(m.add_domain("WWW.example.com".to_string(), &cert, &key), Ok(()));
    assert!(m.has_domains());
    assert!(!m.is_built());
    assert_eq!(m.build(), Ok(()));
    assert!(m.is_built());
    let config = m.acceptor().config();
    assert_eq!(config.alpn_protocols, vec![b"h2".to_vec(), b"http/1.1".to_vec()]);
}

#[test]
fn acceptor_without_domains_is_built() {
    let mut m = SslManager::new();
    assert_eq!(m.build(), Ok(()));
    assert!(m.is_built());
}

#[test]
fn wrong_names_are_refused() {
    let cert = pem("CERTIFICATE", &CERT);
    let key = pem(&key_label(""), &KEY);
    for name in ["example.org", "not a name", ""] {
        let mut m = SslManager::new();
        assert_eq!(m.add_domain("example.com".to_string(), &cert, &key), Ok(()));
        assert_eq!(m.add_domain(name.to_string(), &cert, &key), Ok(()));
        assert_eq!(m.build(), Err(SslError::WrongName(name.to_string())));
        assert!(!m.is_built());
    }
}

#[test]
fn unusable_keys_are_refused() {
    let cert = pem("CERTIFICATE", &CERT);
    let key = pem(&key_label(""), &[1, 2, 3]);
    let mut m = SslManager::new();
    assert_eq!(m.add_domain("example.com".to_string(), &cert, &key), Ok(()));
    assert_eq!(m.build(), Err(SslError::UnsupportedKey("example.com".to_string())));
}

#[test]
fn identities_are_judged() {
    assert_eq!(judge_identity("a", true, true), Ok(()));
    assert_eq!(judge_identity("a", true, false), Err(SslError::WrongName("a".to_string())));
    for fits in [false, true] {
        let e = SslError::UnsupportedKey("a".to_string());
        assert_eq!(judge_identity("a", false, fits), Err(e));
    }
}

fn domain_cert(name: &str, key: &[u8]) -> DomainCert {
    DomainCert {
        name: name.to_string(),
        chain: vec![CERT.to_vec()],
        key: PrivateKey::Pkcs8(key.to_vec()),
    }
}

#[test]
fn acceptor_is_assembled_of_sound_domains() {
    let sound = vec![domain_cert("example.com", &KEY), domain_cert("www.example.com", &KEY)];
    let keys = prepare(&sound);
    assert!(keys.iter().all(|k| k.is_some()));
    assert!(assemble(&sound, keys).is_ok());
    assert!(assemble(&Vec::new(), Vec::new()).is_ok());
}

#[test]
fn first_domain_at_fault_is_told() {
    let domains = vec![
        domain_cert("example.com", &KEY),
        domain_cert("example.org", &KEY),
        domain_cert("www.example.com", &[1]),
    ];
    let mut keys = prepare(&domains);
    assert!(keys[2].is_none());
    let e = assemble(&domains, prepare(&domains)).err();
    assert_eq!(e, Some(SslError::WrongName("example.org".to_string())));
    keys[1] = None;
    let e = assemble(&domains, keys).err();
    assert_eq!(e, Some(SslError::UnsupportedKey("example.org".to_string())));
}

/// An RSA key in PKCS#8.
fn wrapped(rsa: &[u8]) -> Vec<u8> {
    let long = |n: usize| vec![130, (n >> 8) as u8, n as u8];
    let mut inner = vec![2, 1, 0, 48, 13, 6, 9, 42, 134, 72, 134, 247, 13, 1, 1, 1, 5, 0, 4];
    inner.extend(long(rsa.len()));
    inner.extend(rsa);
    let mut all = vec![48];
    all.extend(long(inner.len()));
    all.extend(inner);
    all
}

#[test]
fn keys_of_all_formats_are_made_ready() {
    let damaged = RSA_KEY[..RSA_KEY.len() - 1].to_vec();
    for (key, taken) in [
        (PrivateKey::Pkcs1(RSA_KEY.to_vec()), true),
        (PrivateKey::Pkcs8(wrapped(&RSA_KEY)), true),
        (PrivateKey::Pkcs8(ED25519_KEY.to_vec()), true),
        (PrivateKey::Pkcs1(damaged), false),
        (PrivateKey::Pkcs1(KEY.to_vec()), false),
        (PrivateKey::Pkcs1(wrapped(&RSA_KEY)), false),
        (PrivateKey::Pkcs8(RSA_KEY.to_vec()), false),
        (PrivateKey::Sec1(RSA_KEY.to_vec()), false),
    ] {
        let mut d = domain_cert("example.com", &[]);
        d.chain = vec![RSA_CERT.to_vec()];
        d.key = key;
        let keys = prepare(&vec![d]);
        assert_eq!(keys.len(), 1);
        assert_eq!(keys[0].is_some(), taken);
        if let Some(ck) = &keys[0] {
            assert_eq!(ck.cert, vec![CertificateDer::from(RSA_CERT.to_vec())]);
        }
    }
}

#[test]
fn domains_with_rsa_keys_are_served() {
    let cert = pem("CERTIFICATE", &RSA_CERT);
    for key in [pem(&key_label("RSA "), &RSA_KEY), pem(&key_label(""), &wrapped(&RSA_KEY))] {
        let mut m = SslManager::new();
        assert_eq!(m.add_domain("example.com".to_string(), &cert, &key), Ok(()));
        assert_eq!(m.build(), Ok(()));
        let expected = Some((RSA_CERT.to_vec(), b"h2".to_vec()));
        assert_eq!(shake_hands(&m, "example.com"), expected);
    }
    let mut m = SslManager::new();
    let key = pem(&key_label("RSA "), &[1, 2, 3]);
    assert_eq!(m.add_domain("example.com".to_string(), &cert, &key), Ok(()));
    assert_eq!(m.build(), Err(SslError::UnsupportedKey("example.com".to_string())));
}

#[test]
fn faulty_files_add_no_domain() {
    let mut m = SslManager::new();
    let none = Vec::new();
    assert_eq!(
        m.add_domain("a".to_string(), &none, &none),
        Err(SslError::NoCertificates)
    );
    assert!(!m.has_domains());
}

/// Takes any certificate, and remembers the last.
#[derive(Debug)]
struct Witness {
    seen: Mutex<Vec<u8>>,
}

impl ServerCertVerifier for Witness {
    fn verify_server_cert(
        &self,
        end_entity: &CertificateDer<'_>,
        _intermediates: &[CertificateDer<'_>],
        _server_name: &ServerName<'_>,
        _ocsp_response: &[u8],
        _now: UnixTime,
    ) -> Result<ServerCertVerified, Error> {
        *self.seen.lock().unwrap() = end_entity.as_ref().to_vec();
        Ok(ServerCertVerified::assertion())
    }

    fn verify_tls12_signature(
        &self,
        message: &[u8],
        cert: &CertificateDer<'_>,
        dss: &DigitallySignedStruct,
    ) -> Result<HandshakeSignatureValid, Error> {
        let algorithms = default_provider().signature_verification_algorithms;
        rustls::crypto::verify_tls12_signature(message, cert, dss, &algorithms)
    }

    fn verify_tls13_signature(
        &self,
        message: &[u8],
        cert: &CertificateDer<'_>,
        dss: &DigitallySignedStruct,
    ) -> Result<HandshakeSignatureValid, Error> {
        let algorithms = default_provider().signature_verification_algorithms;
        rustls::crypto::verify_tls13_signature(message, cert, dss, &algorithms)
    }

    fn supported_verify_schemes(&self) -> Vec<SignatureScheme> {
        default_provider().signature_verification_algorithms.supported_schemes()
    }
}

/// Shakes hands with the manager's acceptor, and tells the certificate that it has
/// shown and the protocol that was agreed on.
fn shake_hands(m: &SslManager, name: &'static str) -> Option<(Vec<u8>, Vec<u8>)> {
    let witness = Arc::new(Witness { seen: Mutex::new(Vec::new()) });
    let mut config = ClientConfig::builder_with_provider(Arc::new(default_provider()))
        .with_safe_default_protocol_versions()
        .unwrap()
        .dangerous()
        .with_custom_certificate_verifier(witness.clone())
        .with_no_client_auth();
    config.alpn_protocols = vec![b"http/1.1".to_vec(), b"h2".to_vec()];
    let mut client =
        ClientConnection::new(Arc::new(config), ServerName::try_from(name).unwrap()).unwrap();
    let mut server = ServerConnection::new(m.acceptor().config().clone()).unwrap();
    while client.is_handshaking() || server.is_handshaking() {
        let mut sent = Vec::new();
        while client.wants_write() {
            client.write_tls(&mut sent).unwrap();
        }
        let mut rest = sent.as_slice();
        while !rest.is_empty() {
            server.read_tls(&mut rest).unwrap();
        }
        if server.process_new_packets().is_err() {
            return None;
        }
        let mut back = Vec::new();
        while server.wants_write() {
            server.write_tls(&mut back).unwrap();
        }
        let mut rest = back.as_slice();
        while !rest.is_empty() {
            client.read_tls(&mut rest).unwrap();
        }
        client.process_new_packets().unwrap();
    }
    let seen = witness.seen.lock().unwrap().clone();
    Some((seen, server.alpn_protocol().unwrap().to_vec()))
}

#[test]
fn each_domain_shows_its_certificate() {
    let cert = pem("CERTIFICATE", &CERT);
    let key = pem(&key_label(""), &KEY);
    let other_cert = pem("CERTIFICATE", &OTHER_CERT);
    let other_key = pem(&key_label(""), &OTHER_KEY);
    let mut m = SslManager::new();
    assert_eq!(m.add_domain("Example.com".to_string(), &cert, &key), Ok(()));
    assert_eq!(m.add_domain("other.test".to_string(), &other_cert, &other_key), Ok(()));
    assert_eq!(m.build(), Ok(()));
    let h2 = b"h2".to_vec();
    assert_eq!(shake_hands(&m, "example.com"), Some((CERT.to_vec(), h2.clone())));
    assert_eq!(shake_hands(&m, "EXAMPLE.com"), Some((CERT.to_vec(), h2.clone())));
    assert_eq!(shake_hands(&m, "other.test"), Some((OTHER_CERT.to_vec(), h2)));
    assert_eq!(shake_hands(&m, "www.example.com"), None);
}
